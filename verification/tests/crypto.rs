use omitfs::crypto::{
    base64_decode, base64_encode, from_store, read_plaintext, take_apart, to_store, write_down,
    CryptoError, Encryptor,
};

fn fresh() -> Encryptor {
    Encryptor::load_or_create(None).unwrap().0
}

fn with_key(byte: u8) -> Encryptor {
    Encryptor::load_or_create(Some(vec![byte; 32])).unwrap().0
}

fn hex(s: &str) -> Vec<u8> {
    (0..s.len() / 2).map(|i| u8::from_str_radix(&s[2 * i..2 * i + 2], 16).unwrap()).collect()
}

#[test]
fn test_encrypt_decrypt_roundtrip() {
    let enc = fresh();
    let plaintext = "Hello, OmitFS!";
    let ciphertext = enc.encrypt(plaintext).unwrap();
    assert_ne!(ciphertext, plaintext);
    let recovered = enc.decrypt(&ciphertext).unwrap();
    assert_eq!(recovered, plaintext);
}

#[test]
fn test_different_nonces_per_encrypt() {
    let enc = fresh();
    let a = enc.encrypt("same text").unwrap();
    let b = enc.encrypt("same text").unwrap();
    // Different nonces → different ciphertexts each time
    assert_ne!(a, b);
}

#[test]
fn test_wrong_key_fails_decrypt() {
    let enc_a = fresh();
    let enc_b = fresh();
    let ct = enc_a.encrypt("secret").unwrap();
    // Decrypting with a different key must fail
    assert!(enc_b.decrypt(&ct).is_err());
}

#[test]
fn test_base64_roundtrip() {
    let data: Vec<u8> = (0u8..=255).collect();
    let encoded = base64_encode(&data);
    let decoded = base64_decode(&encoded).unwrap();
    assert_eq!(data, decoded);
}

#[test]
fn test_key_length_validation() {
    let result = Encryptor::load_or_create(Some(b"tooshort".to_vec()));
    assert!(result.is_err());
}

#[test]
fn a_key_of_the_wrong_length_is_named_as_the_cause() {
    let error = Encryptor::load_or_create(Some(vec![1; 33])).err().unwrap();
    assert_eq!(error, CryptoError::KeyLength);
    assert_eq!(
        error.message(),
        "encryption.key must be exactly 32 bytes — delete it to regenerate"
    );
}

#[test]
fn a_new_key_is_handed_back_and_loads_again() {
    let (enc, key) = Encryptor::load_or_create(None).unwrap();
    let key = key.unwrap();
    assert_eq!(key.len(), 32);
    let (again, new_key) = Encryptor::load_or_create(Some(key)).unwrap();
    assert!(new_key.is_none());
    assert_eq!(again.decrypt(&enc.encrypt("kept").unwrap()).unwrap(), "kept");
}

#[test]
fn new_keys_differ() {
    let a = Encryptor::load_or_create(None).unwrap().1.unwrap();
    let b = Encryptor::load_or_create(None).unwrap().1.unwrap();
    assert_ne!(a, b);
}

#[test]
fn the_cipher_is_aes_256_gcm() {
    // One block of zeros under the all-zero key and nonce.
    let enc = with_key(0);
    let text = String::from_utf8(vec![0; 16]).unwrap();
    let written = enc.encrypt_with_nonce(&text, vec![0; 12]).unwrap();
    let bytes = base64_decode(&written).unwrap();
    assert_eq!(bytes[..12], [0; 12]);
    assert_eq!(bytes[12..28], hex("cea7403d4d606b6e074ec5d3baf39d18")[..]);
    assert_eq!(bytes[28..], hex("d0d1c8a799996bf0265b98b5d48ab919")[..]);
}

#[test]
fn the_empty_text_has_a_tag_alone() {
    let enc = with_key(0);
    let written = enc.encrypt_with_nonce("", vec![0; 12]).unwrap();
    let bytes = base64_decode(&written).unwrap();
    assert_eq!(bytes[12..], hex("530f8afbc74536b9a963b4f1c4cb738b")[..]);
    assert_eq!(enc.decrypt(&written).unwrap(), "");
}

#[test]
fn equal_nonces_give_equal_texts_and_others_do_not() {
    let enc = with_key(7);
    let a = enc.encrypt_with_nonce("same", vec![1; 12]).unwrap();
    let b = enc.encrypt_with_nonce("same", vec![1; 12]).unwrap();
    let c = enc.encrypt_with_nonce("same", vec![2; 12]).unwrap();
    assert_eq!(a, b);
    assert_ne!(a, c);
}

#[test]
fn text_beyond_ascii_comes_back() {
    let enc = with_key(9);
    let text = "naïve – 数学 🌌\n";
    assert_eq!(enc.decrypt(&enc.encrypt(text).unwrap()).unwrap(), text);
}

#[test]
fn a_changed_byte_is_found_out() {
    let enc = with_key(3);
    let mut bytes = base64_decode(&enc.encrypt("untouched").unwrap()).unwrap();
    let last = bytes.len() - 1;
    bytes[last] ^= 1;
    let error = enc.decrypt(&base64_encode(&bytes)).unwrap_err();
    assert_eq!(error, CryptoError::Decrypt);
    assert_eq!(error.message(), "AES-GCM decrypt failed: aead::Error");
}

#[test]
fn what_is_no_base64_is_refused() {
    let error = with_key(3).decrypt("ab*d").unwrap_err();
    assert_eq!(error, CryptoError::InvalidBase64(b'*'));
    assert_eq!(error.message(), "Invalid base64 in encrypted chunk");
}

#[test]
fn what_cannot_hold_a_nonce_is_refused() {
    let error = with_key(3).decrypt(&base64_encode(&[1; 11])).unwrap_err();
    assert_eq!(error, CryptoError::TooShort);
    assert_eq!(error.message(), "Encrypted data too short to contain nonce");
}

#[test]
fn a_nonce_without_a_tag_is_not_authentic() {
    assert_eq!(
        with_key(3).decrypt(&base64_encode(&[1; 12])).unwrap_err(),
        CryptoError::Decrypt
    );
}

#[test]
fn a_plaintext_that_is_no_utf8_is_refused() {
    assert_eq!(read_plaintext(Some(vec![0xff, 0xfe])), Err(CryptoError::NotUtf8));
    assert_eq!(
        CryptoError::NotUtf8.message(),
        "Decrypted chunk is not valid UTF-8"
    );
    assert_eq!(read_plaintext(Some(b"plain".to_vec())), Ok("plain".to_string()));
    assert_eq!(read_plaintext(None), Err(CryptoError::Decrypt));
}

#[test]
fn a_cipher_that_fails_is_reported() {
    assert_eq!(write_down(vec![0; 12], None), Err(CryptoError::Encrypt));
    assert_eq!(CryptoError::Encrypt.message(), "AES-GCM encrypt failed: aead::Error");
}

#[test]
fn the_nonce_stands_before_the_ciphertext() {
    let written = write_down(vec![5; 12], Some(vec![6; 17])).unwrap();
    let (nonce, ciphertext) = take_apart(&written).unwrap();
    assert_eq!(nonce, vec![5; 12]);
    assert_eq!(ciphertext, vec![6; 17]);
}

#[test]
fn base64_of_known_texts() {
    assert_eq!(base64_encode(b""), "");
    assert_eq!(base64_encode(b"f"), "Zg==");
    assert_eq!(base64_encode(b"fo"), "Zm8=");
    assert_eq!(base64_encode(b"foo"), "Zm9v");
    assert_eq!(base64_encode(b"foob"), "Zm9vYg==");
    assert_eq!(base64_encode(b"fooba"), "Zm9vYmE=");
    assert_eq!(base64_encode(b"foobar"), "Zm9vYmFy");
    assert_eq!(base64_encode(&[0xfb, 0xff, 0xbf]), "+/+/");
}

#[test]
fn base64_round_trips_at_every_length() {
    for n in 0..40usize {
        let data: Vec<u8> = (0..n).map(|i| (i * 37 + n) as u8).collect();
        let text = base64_encode(&data);
        assert_eq!(text.len(), (n + 2) / 3 * 4);
        assert_eq!(base64_decode(&text), Ok(data));
    }
}

#[test]
fn base64_texts_tell_bytes_apart() {
    assert_ne!(base64_encode(&[0]), base64_encode(&[0, 0]));
    assert_ne!(base64_encode(&[0, 1]), base64_encode(&[1, 0]));
}

#[test]
fn base64_ignores_line_breaks() {
    assert_eq!(base64_decode("Zm9v\r\nYmFy\n"), Ok(b"foobar".to_vec()));
    assert_eq!(base64_decode("Z\nm9v"), Ok(b"foo".to_vec()));
}

#[test]
fn base64_leaves_symbols_over_at_the_end_out() {
    assert_eq!(base64_decode("Zm9vYm"), Ok(b"foo".to_vec()));
    assert_eq!(base64_decode("Zm*"), Ok(vec![]));
}

#[test]
fn base64_reports_the_first_byte_that_is_no_symbol() {
    assert_eq!(base64_decode("Zm9v!-Fy"), Err(b'!'));
    assert_eq!(base64_decode("Zm9 "), Err(b' '));
    assert_eq!(base64_decode("é==="), Err(0xc3));
}

#[test]
fn encrypted_texts_have_their_length() {
    let enc = with_key(5);
    for text in ["", "a", "ab", "abc", "naïve – 数学"] {
        let written = enc.encrypt(text).unwrap();
        assert_eq!(written.len(), (text.len() + 30) / 3 * 4);
        assert_eq!(base64_decode(&written).unwrap().len(), text.len() + 28);
    }
}

#[test]
fn what_is_decrypted_is_encrypted_alike_under_its_nonce() {
    let enc = with_key(5);
    let written = enc.encrypt("again").unwrap();
    let text = enc.decrypt(&written).unwrap();
    let nonce = take_apart(&written).unwrap().0;
    assert_eq!(enc.encrypt_with_nonce(&text, nonce), Ok(written));
}

#[test]
fn chunks_are_stored_encrypted_where_there_is_an_encryptor() {
    let enc = with_key(8);
    let stored = to_store(Some(&enc), "a chunk").unwrap();
    assert_ne!(stored, "a chunk");
    assert_eq!(from_store(Some(&enc), &stored), Ok("a chunk".to_string()));
    assert_eq!(to_store(None, "a chunk"), Ok("a chunk".to_string()));
    assert_eq!(from_store(None, "a chunk"), Ok("a chunk".to_string()));
    assert_eq!(from_store(Some(&enc), "*###"), Err(CryptoError::InvalidBase64(b'*')));
}
