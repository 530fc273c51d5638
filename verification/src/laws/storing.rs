//! What is promised of what is kept: of settings, rows, the manifest, and encrypted chunks.
use vstd::prelude::*;
use vstd::utf8::encode_utf8;

use crate::config::{Config, StoredConfig};
use crate::crypto::{
    aes256gcm_opened, aes256gcm_sealed, base64_decode, base64_encode, encryptor_key, from_store, law_base64_goes_by_the_alphabet,
    law_base64_length, law_base64_round_trip, law_encrypted_texts_hold_nonce_and_ciphertext,
    law_only_the_alphabet_is_read, read_plaintext, take_apart, to_store, write_down, CryptoError,
    Encryptor,
};
use crate::db::{
    at_most, delete_predicate, first_of_each, law_predicates_double_each_quote,
    law_predicates_tell_paths_apart, law_the_first_row_of_each_path_is_kept, over_limit, schema,
    without_chunks, Column, ColumnType, SearchResults,
};
use crate::hasher::{
    hex, law_hexadecimal_goes_byte_by_byte, sha256_digest, to_hex, ContentHasher, FileEntry,
    HashManifest,
};
use crate::reranker::Row;

verus! {

// ----------------------------------------------------------------------------------------------
// Settings
// ----------------------------------------------------------------------------------------------

/// Settings that are stored are kept, each as it is, and those that are not have their defaults;
/// without a file all do, and the file is to be written.
pub proof fn law_settings_are_taken_from_the_file(stored: Option<StoredConfig>, r: (Config, bool))
    requires
        call_ensures(Config::load, (stored,), r),
    ensures
        r.1 <==> stored is None,
        r.0.max_results == (if stored is Some && stored->0.max_results is Some {
            stored->0.max_results->0
        } else {
            10
        }),
        r.0.overfetch_factor == (if stored is Some && stored->0.overfetch_factor is Some {
            stored->0.overfetch_factor->0
        } else {
            5
        }),
        r.0.chunk_words == (if stored is Some && stored->0.chunk_words is Some {
            stored->0.chunk_words->0
        } else {
            200
        }),
        r.0.overlap_words == (if stored is Some && stored->0.overlap_words is Some {
            stored->0.overlap_words->0
        } else {
            50
        }),
        r.0.encryption_enabled <==> stored is Some && stored->0.encryption_enabled == Some(true),
{
}

/// Settings that were saved are loaded again as they were.
pub proof fn law_saved_settings_are_loaded_again(config: Config, s: StoredConfig, r: (Config, bool))
    requires
        call_ensures(Config::save, (&config,), s),
        call_ensures(Config::load, (Some(s),), r),
    ensures
        r.0 == config,
        !r.1,
{
}

// ----------------------------------------------------------------------------------------------
// Rows
// ----------------------------------------------------------------------------------------------

/// The table has four columns of text and one of vectors, in this order and under these names.
pub proof fn law_the_table_has_five_columns(r: Vec<Column>)
    requires
        call_ensures(schema, (), r),
    ensures
        r@.map_values(|c: Column| c.name@) == seq![
            "file_id"@,
            "filename"@,
            "physical_path"@,
            "chunk_text"@,
            "vector"@,
        ],
        forall|i: int| 0 <= i < 4 ==> (#[trigger] r@[i]).kind == ColumnType::Utf8,
        r@[4].kind == ColumnType::Vector(384),
{
    assert(r@.map_values(|c: Column| c.name@) =~= seq![
        "file_id"@,
        "filename"@,
        "physical_path"@,
        "chunk_text"@,
        "vector"@,
    ]);
}

/// The predicate by which the rows of a path are deleted holds the whole path between quotes, with
/// each quote in it doubled; different paths have different predicates.
pub proof fn law_rows_are_deleted_by_their_path(path: &str, r: String, other: &str, s: String)
    requires
        call_ensures(delete_predicate, (path,), r),
        call_ensures(delete_predicate, (other,), s),
    ensures
        r@ == "physical_path = '"@ + path@.map_values(
            |c: char|
                if c == '\'' {
                    seq!['\'', '\'']
                } else {
                    seq![c]
                },
        ).flatten() + "'"@,
        r@ == s@ <==> path@ == other@,
{
    law_predicates_double_each_quote(path@);
    law_predicates_tell_paths_apart(path@, other@);
}

/// As many rows are asked for as the limit times the factor, and of each result the name and the path
/// are kept.
pub proof fn law_results_are_fetched_and_kept(
    limit: usize,
    factor: usize,
    asked: usize,
    rows: &Vec<Row>,
    r: Vec<(String, String)>,
)
    requires
        limit * factor <= usize::MAX,
        call_ensures(over_limit, (limit, factor), asked),
        call_ensures(without_chunks, (rows,), r),
    ensures
        asked == limit * factor,
        r@.len() == rows@.len(),
        forall|i: int|
            #![trigger r@[i]]
            0 <= i < r@.len() ==> r@[i].0@ == rows@[i].0@ && r@[i].1@ == rows@[i].1@,
{
}

// ----------------------------------------------------------------------------------------------
// The manifest
// ----------------------------------------------------------------------------------------------

/// Each byte is written as two numerals of the sixteen, its upper half first.
pub proof fn law_bytes_are_written_in_hexadecimal(data: &Vec<u8>, r: String, i: int)
    requires
        call_ensures(to_hex, (data,), r),
        0 <= i < data@.len(),
    ensures
        r@.len() == 2 * data@.len(),
        r@[2 * i] == "0123456789abcdef"@[data@[i] as int / 16],
        r@[2 * i + 1] == "0123456789abcdef"@[data@[i] as int % 16],
{
    law_hexadecimal_goes_byte_by_byte(data@, i);
}

/// A file is fresh exactly where the manifest knows it, with its size and with its content hash. Its
/// content has to be hashed exactly where its size is the one that is known.
pub proof fn law_files_are_fresh_by_size_and_hash(
    manifest: &HashManifest,
    path: &str,
    size: Option<u64>,
    hash: Option<&str>,
    stale: bool,
    hashing: bool,
)
    requires
        call_ensures(HashManifest::is_stale, (manifest, path, size, hash), stale),
        call_ensures(HashManifest::needs_hash, (manifest, path, size), hashing),
    ensures
        !stale <==> manifest@.contains_key(path@) && size is Some && hash is Some && size->0
            == manifest@[path@].size && hash->0@ == manifest@[path@].sha256,
        hashing <==> manifest@.contains_key(path@) && size is Some && size->0
            == manifest@[path@].size,
{
}

// ----------------------------------------------------------------------------------------------
// Encrypted chunks
// ----------------------------------------------------------------------------------------------

/// What is written in base64 is read back unchanged, and has four symbols for every three bytes
/// begun.
pub proof fn law_base64_is_read_back(data: &[u8], s: String, t: &str, r: Result<Vec<u8>, u8>)
    requires
        call_ensures(base64_encode, (data,), s),
        t@ == s@,
        call_ensures(base64_decode, (t,), r),
    ensures
        r is Ok,
        r->Ok_0@ == data@,
        s@.len() == 4 * ((data@.len() + 2) / 3),
{
    law_base64_round_trip(data@);
    law_base64_length(data@);
}

/// Base64 is written in the symbols of its alphabet, each for six bits, with padding where bytes are
/// missing.
pub proof fn law_base64_is_written_in_its_alphabet(data: &[u8], s: String)
    requires
        call_ensures(base64_encode, (data,), s),
    ensures
        ({
            let alphabet = "ABCDEFGHIJKLMNOPQRSTUVWXYZabcdefghijklmnopqrstuvwxyz0123456789+/"@;
            &&& data@.len() == 3 ==> {
                let n = data@[0] * 65536 + data@[1] * 256 + data@[2];
                s@ == seq![
                    alphabet[n / 262144],
                    alphabet[n / 4096 % 64],
                    alphabet[n / 64 % 64],
                    alphabet[n % 64],
                ]
            }
            &&& data@.len() == 2 ==> {
                let n = data@[0] * 65536 + data@[1] * 256;
                s@ == seq![
                    alphabet[n / 262144],
                    alphabet[n / 4096 % 64],
                    alphabet[n / 64 % 64],
                    '=',
                ]
            }
            &&& data@.len() == 1 ==> {
                let n = data@[0] * 65536;
                s@ == seq![alphabet[n / 262144], alphabet[n / 4096 % 64], '=', '=']
            }
            &&& data@.len() == 0 ==> s@.len() == 0
        }),
{
    if data@.len() == 3 {
        law_base64_goes_by_the_alphabet(data@[0], data@[1], data@[2], Seq::empty());
        assert(data@ =~= seq![data@[0], data@[1], data@[2]]);
    } else if data@.len() == 2 {
        law_base64_goes_by_the_alphabet(data@[0], data@[1], 0, Seq::empty());
        assert(data@ =~= seq![data@[0], data@[1]]);
    } else if data@.len() == 1 {
        law_base64_goes_by_the_alphabet(data@[0], 0, 0, Seq::empty());
        assert(data@ =~= seq![data@[0]]);
    }
}

/// The base64 of bytes behind three others is written behind the symbols of those.
pub proof fn law_base64_is_written_three_bytes_at_a_time(
    head: &[u8],
    s: String,
    tail: &[u8],
    t: String,
    all: &[u8],
    r: String,
)
    requires
        call_ensures(base64_encode, (head,), s),
        call_ensures(base64_encode, (tail,), t),
        call_ensures(base64_encode, (all,), r),
        head@.len() == 3,
        all@ == head@ + tail@,
    ensures
        r@ == s@ + t@,
{
    law_base64_goes_by_the_alphabet(head@[0], head@[1], head@[2], tail@);
    assert(head@ =~= seq![head@[0], head@[1], head@[2]]);
}

/// Base64 is read exactly where, line breaks aside, every byte in a whole group of four is a letter,
/// a digit, `+`, `/` or `=`.
pub proof fn law_only_base64_is_read(s: &str, r: Result<Vec<u8>, u8>)
    requires
        call_ensures(base64_decode, (s,), r),
    ensures
        ({
            let t = encode_utf8(s@).filter(|b: u8| b != 10 && b != 13);
            r is Ok <==> forall|i: int|
                0 <= i < t.len() / 4 * 4 ==> 65 <= #[trigger] t[i] <= 90 || 97 <= t[i] <= 122 || 48
                    <= t[i] <= 57 || t[i] == 43 || t[i] == 47 || t[i] == 61
        }),
{
    law_only_the_alphabet_is_read(s@, 0);
}

/// A nonce of twelve bytes and a ciphertext that are written down are taken apart again as they were.
pub proof fn law_ciphertexts_are_taken_apart_again(
    nonce: Vec<u8>,
    ciphertext: Vec<u8>,
    s: Result<String, CryptoError>,
    t: &str,
    r: Result<(Vec<u8>, Vec<u8>), CryptoError>,
)
    requires
        nonce@.len() == 12,
        call_ensures(write_down, (nonce, Some(ciphertext)), s),
        s is Ok,
        t@ == s->Ok_0@,
        call_ensures(take_apart, (t,), r),
    ensures
        r is Ok,
        r->Ok_0.0@ == nonce@,
        r->Ok_0.1@ == ciphertext@,
{
    law_encrypted_texts_hold_nonce_and_ciphertext(nonce@, ciphertext@);
}

/// What the cipher opened is read as the whole text that it encodes, and what it did not open is an
/// error.
pub proof fn law_plaintexts_are_read_whole(
    bytes: Vec<u8>,
    t: Seq<char>,
    r: Result<String, CryptoError>,
    none: Result<String, CryptoError>,
)
    requires
        call_ensures(read_plaintext, (Some(bytes),), r),
        call_ensures(read_plaintext, (None,), none),
    ensures
        bytes@ == encode_utf8(t) ==> r is Ok && r->Ok_0@ == t,
        r is Ok ==> encode_utf8(r->Ok_0@) == bytes@,
        none == Err::<String, CryptoError>(CryptoError::Decrypt),
{
    crate::crypto::law_opened_texts_are_read_whole(Seq::empty(), t, bytes@, Seq::empty());
    if vstd::utf8::valid_utf8(bytes@) {
        vstd::utf8::decode_utf8_encode_utf8(bytes@);
    }
}

/// What is encrypted is decrypted again as it was, whole, by whoever has the same key.
pub proof fn law_encrypted_texts_are_decrypted_again(
    e: &Encryptor,
    other: &Encryptor,
    plaintext: &str,
    s: Result<String, CryptoError>,
    t: &str,
    r: Result<String, CryptoError>,
)
    requires
        other.key() == e.key(),
        call_ensures(Encryptor::encrypt, (e, plaintext), s),
        s is Ok,
        t@ == s->Ok_0@,
        call_ensures(Encryptor::decrypt, (other, t), r),
    ensures
        r is Ok,
        r->Ok_0@ == plaintext@,
{
}

/// A chunk that is stored is got back as it was, with a key by whoever has the same and without one
/// by whoever has none; without a key it is stored as it is.
pub proof fn law_stored_chunks_are_got_back(
    encryptor: Option<&Encryptor>,
    other: Option<&Encryptor>,
    chunk: &str,
    s: Result<String, CryptoError>,
    t: &str,
    r: Result<String, CryptoError>,
)
    requires
        encryptor is Some <==> other is Some,
        encryptor is Some ==> encryptor->0.key() == other->0.key(),
        call_ensures(to_store, (encryptor, chunk), s),
        s is Ok,
        t@ == s->Ok_0@,
        call_ensures(from_store, (other, t), r),
    ensures
        r is Ok,
        r->Ok_0@ == chunk@,
        encryptor is None ==> s->Ok_0@ == chunk@,
{
    assert(encryptor_key(encryptor) == encryptor_key(other));
}

// ----------------------------------------------------------------------------------------------
// What was gathered
// ----------------------------------------------------------------------------------------------

/// The results of a search are, of the rows that came in, those whose path no earlier row has, each as
/// it is and in order, and of these the first ones up to the limit. There are enough of them exactly
/// where there are as many as the limit.
pub proof fn law_searches_give_the_first_of_each_path(
    search: SearchResults,
    full: bool,
    r: Vec<Row>,
) -> (at: Seq<int>)
    requires
        call_ensures(SearchResults::is_full, (&search,), full),
        call_ensures(SearchResults::finish, (search,), r),
    ensures
        forall|k: int, l: int| 0 <= k < l < at.len() ==> #[trigger] at[k] < #[trigger] at[l],
        forall|i: int|
            0 <= i < search.seen().len() ==> (#[trigger] at.contains(i) <==> forall|j: int|
                0 <= j < i ==> (#[trigger] search.seen()[j]).1@ != search.seen()[i].1@),
        r@.len() == (if at.len() <= search.limit() {
            at.len()
        } else {
            search.limit()
        }),
        forall|k: int|
            #![trigger r@[k]]
            0 <= k < r@.len() ==> 0 <= at[k] < search.seen().len() && r@[k] == search.seen()[at[k]],
        full <==> r@.len() == search.limit(),
{
    let at = law_the_first_row_of_each_path_is_kept(search.seen(), search.limit());
    assert forall|k: int|
        #![trigger r@[k]]
        0 <= k < r@.len() implies 0 <= at[k] < search.seen().len() && r@[k]
        == search.seen()[at[k]] by {
        assert(r@[k] == at_most(first_of_each(search.seen()), search.limit())[k]);
    }
    at
}

/// The hash of what was fed is its digest, each byte as two numerals of the sixteen.
pub proof fn law_content_is_hashed_whole(hasher: ContentHasher, r: String, i: int)
    requires
        hasher.fed().len() <= 0x1fff_ffff_ffff_ffff,
        call_ensures(ContentHasher::finish, (hasher,), r),
        0 <= i < 32,
    ensures
        r@.len() == 64,
        r@[2 * i] == "0123456789abcdef"@[sha256_digest(hasher.fed())[i] as int / 16],
        r@[2 * i + 1] == "0123456789abcdef"@[sha256_digest(hasher.fed())[i] as int % 16],
{
    let digest = sha256_digest(hasher.fed());
    if digest.len() == 0 {
        assert(hex(digest).len() == 0);
    } else {
        law_hexadecimal_goes_byte_by_byte(digest, 0);
        law_hexadecimal_goes_byte_by_byte(digest, i);
    }
}

/// A manifest that was saved is loaded again as it was, and without one that was saved the manifest
/// knows no file.
pub proof fn law_saved_manifests_are_loaded_again(
    manifest: &HashManifest,
    list: &Vec<(String, FileEntry)>,
    r: HashManifest,
    none: HashManifest,
)
    requires
        call_ensures(HashManifest::save, (manifest,), list),
        call_ensures(HashManifest::load, (Some(*list),), r),
        call_ensures(HashManifest::load, (None,), none),
    ensures
        r@ == manifest@,
        none@ == Map::<Seq<char>, crate::hasher::EntryView>::empty(),
        forall|i: int, j: int|
            0 <= i < j < list@.len() ==> (#[trigger] list@[i]).0@ != (#[trigger] list@[j]).0@,
{
}

/// A file that is marked as indexed is known from then on by exactly this hash, size and time, whatever
/// was known of it before, and nothing else that is known changes.
pub proof fn law_marked_files_are_known(
    manifest: &mut HashManifest,
    path: String,
    size: u64,
    hash: String,
    now: u64,
)
    requires
        call_ensures(HashManifest::mark_indexed, (manifest, path, size, hash, now), ()),
    ensures
        final(manifest)@.contains_key(path@),
        final(manifest)@[path@].sha256 == hash@,
        final(manifest)@[path@].size == size,
        final(manifest)@[path@].indexed_at == now,
        forall|other: Seq<char>|
            #![trigger final(manifest)@.contains_key(other)]
            other != path@ ==> (final(manifest)@.contains_key(other) <==> old(manifest)@.contains_key(other)),
        forall|other: Seq<char>|
            #![trigger final(manifest)@[other]]
            other != path@ ==> final(manifest)@[other] == old(manifest)@[other],
{
}

/// A file that is forgotten is not known any more, and nothing else that is known changes.
pub proof fn law_forgotten_files_are_unknown(manifest: &mut HashManifest, path: &str)
    requires
        call_ensures(HashManifest::remove, (manifest, path), ()),
    ensures
        !final(manifest)@.contains_key(path@),
        forall|other: Seq<char>|
            #![trigger final(manifest)@.contains_key(other)]
            other != path@ ==> (final(manifest)@.contains_key(other) <==> old(manifest)@.contains_key(other)),
        forall|other: Seq<char>|
            #![trigger final(manifest)@[other]]
            other != path@ && old(manifest)@.contains_key(other) ==> final(manifest)@[other] == old(manifest)@[other],
{
}

/// Rows come in one after the other, each whole, and the limit stays what it was.
pub proof fn law_rows_come_in_one_by_one(search: &mut SearchResults, row: Row)
    requires
        call_ensures(SearchResults::push, (search, row), ()),
    ensures
        final(search).seen() == old(search).seen() + seq![row],
        final(search).limit() == old(search).limit(),
{
}

/// Content is fed piece by piece, each piece whole and behind those before it.
pub proof fn law_content_is_fed_piece_by_piece(hasher: &mut ContentHasher, data: &[u8])
    requires
        old(hasher).fed().len() + data@.len() <= 0x1fff_ffff_ffff_ffff,
        call_ensures(ContentHasher::update, (hasher, data), ()),
    ensures
        final(hasher).fed() == old(hasher).fed() + data@,
{
}

/// A stored key of thirty-two bytes is taken as it is, and one of any other length is refused; where
/// none is stored, the new key has thirty-two bytes and is handed back to be stored.
pub proof fn law_stored_keys_are_used(
    stored: Option<Vec<u8>>,
    r: Result<(Encryptor, Option<Vec<u8>>), CryptoError>,
)
    requires
        call_ensures(Encryptor::load_or_create, (stored,), r),
    ensures
        stored is Some && stored->0@.len() == 32 ==> r is Ok && r->Ok_0.0.key() == stored->0@
            && r->Ok_0.1 is None,
        stored is Some && stored->0@.len() != 32 ==> r is Err && r->Err_0 == CryptoError::KeyLength,
        stored is None ==> r is Ok && r->Ok_0.0.key().len() == 32 && r->Ok_0.1 is Some
            && r->Ok_0.1->0@ == r->Ok_0.0.key(),
{
}

/// An encrypted text is the base64 of the twelve bytes of its nonce and of what the cipher made of the
/// whole text under the key and that nonce.
pub proof fn law_texts_are_encrypted_whole(
    e: &Encryptor,
    plaintext: &str,
    nonce: Vec<u8>,
    s: Result<String, CryptoError>,
    sealed: Vec<u8>,
    all: &[u8],
    written: String,
)
    requires
        nonce@.len() == 12,
        call_ensures(Encryptor::encrypt_with_nonce, (e, plaintext, nonce), s),
        aes256gcm_sealed(e.key(), nonce@, encode_utf8(plaintext@)) == Some(sealed@),
        all@ == nonce@ + sealed@,
        call_ensures(base64_encode, (all,), written),
    ensures
        s is Ok,
        s->Ok_0@ == written@,
{
}

/// What is gathered starts out with nothing.
pub proof fn law_everything_starts_empty(
    limit: usize,
    search: SearchResults,
    hasher: ContentHasher,
)
    requires
        call_ensures(SearchResults::new, (limit,), search),
        call_ensures(ContentHasher::new, (), hasher),
    ensures
        search.seen().len() == 0,
        search.limit() == limit,
        hasher.fed().len() == 0,
{
}

/// A text that cannot be taken apart is not decrypted, by the same error; any other is decrypted to what
/// the cipher opens of its ciphertext under the key and its nonce, read as text.
pub proof fn law_texts_are_decrypted_whole(
    e: &Encryptor,
    text: &str,
    parts: Result<(Vec<u8>, Vec<u8>), CryptoError>,
    r: Result<String, CryptoError>,
    t: Seq<char>,
)
    requires
        call_ensures(take_apart, (text,), parts),
        call_ensures(Encryptor::decrypt, (e, text), r),
    ensures
        parts is Err ==> r is Err && r->Err_0 == parts->Err_0,
        parts is Ok && aes256gcm_opened(e.key(), parts->Ok_0.0@, parts->Ok_0.1@) is None ==> r is Err
            && r->Err_0 == CryptoError::Decrypt,
        parts is Ok && aes256gcm_opened(e.key(), parts->Ok_0.0@, parts->Ok_0.1@) == Some(
            encode_utf8(t),
        ) ==> r is Ok && r->Ok_0@ == t,
{
    crate::crypto::law_opened_texts_are_read_whole(e.key(), t, Seq::empty(), text@);
}

} // verus!
