//! Encryption of indexed text: AES-256-GCM under a stored key, written down as base64.
//!
//! An encrypted text is the base64 of a twelve-byte nonce followed by the ciphertext, whose last
//! sixteen bytes are the authentication tag.
use aes_gcm::aead::{Aead, AeadCore, KeyInit, OsRng};
use aes_gcm::{Aes256Gcm, Key, Nonce};
use vstd::prelude::*;
use vstd::utf8::{decode_utf8, encode_utf8, is_ascii_chars, valid_utf8};

verus! {

// ----------------------------------------------------------------------------------------------
// Base64
// ----------------------------------------------------------------------------------------------

/// The base64 symbol of a six-bit value.
pub open spec fn symbol(v: int) -> char {
    if v < 26 {
        ((65 + v) as u8) as char
    } else if v < 52 {
        ((97 + (v - 26)) as u8) as char
    } else if v < 62 {
        ((48 + (v - 52)) as u8) as char
    } else if v == 62 {
        '+'
    } else {
        '/'
    }
}

/// The base64 text of one group of up to three bytes: four symbols, the last of them `=` for each
/// byte that is missing.
pub open spec fn encoded_group(g: Seq<u8>) -> Seq<char> {
    let b0 = g[0] as int;
    let b1 = if g.len() > 1 {
        g[1] as int
    } else {
        0
    };
    let b2 = if g.len() > 2 {
        g[2] as int
    } else {
        0
    };
    seq![
        symbol(b0 / 4),
        symbol((b0 % 4) * 16 + b1 / 16),
        if g.len() > 1 {
            symbol((b1 % 16) * 4 + b2 / 64)
        } else {
            '='
        },
        if g.len() > 2 {
            symbol(b2 % 64)
        } else {
            '='
        },
    ]
}

/// The base64 text of a row of bytes, taken three at a time.
pub open spec fn encoded(data: Seq<u8>) -> Seq<char>
    decreases data.len(),
{
    if data.len() == 0 {
        Seq::empty()
    } else if data.len() <= 3 {
        encoded_group(data)
    } else {
        encoded_group(data.take(3)) + encoded(data.skip(3))
    }
}

/// The six-bit value of a base64 symbol; the padding counts as zero.
pub open spec fn symbol_value(c: u8) -> Option<int> {
    if 65 <= c <= 90 {
        Some(c - 65)
    } else if 97 <= c <= 122 {
        Some(c - 97 + 26)
    } else if 48 <= c <= 57 {
        Some(c - 48 + 52)
    } else if c == 43 {
        Some(62)
    } else if c == 47 {
        Some(63)
    } else if c == 61 {
        Some(0)
    } else {
        None
    }
}

/// The bytes that four valid base64 symbols stand for: one, and one more for each of the last two
/// that is not padding.
pub open spec fn decoded_group(g: Seq<u8>) -> Seq<u8> {
    let v0 = symbol_value(g[0]).unwrap();
    let v1 = symbol_value(g[1]).unwrap();
    let v2 = symbol_value(g[2]).unwrap();
    let v3 = symbol_value(g[3]).unwrap();
    let first = seq![(v0 * 4 + v1 / 16) as u8];
    let second = if g[2] != 61 {
        seq![((v1 % 16) * 16 + v2 / 4) as u8]
    } else {
        Seq::empty()
    };
    let third = if g[3] != 61 {
        seq![((v2 % 4) * 64 + v3) as u8]
    } else {
        Seq::empty()
    };
    first + second + third
}

/// The first byte of a group that is no base64 symbol.
pub open spec fn first_bad(g: Seq<u8>) -> Option<u8>
    decreases g.len(),
{
    if g.len() == 0 {
        None
    } else if symbol_value(g[0]) is None {
        Some(g[0])
    } else {
        first_bad(g.skip(1))
    }
}

/// The bytes that a row of base64 symbols stands for, taken four at a time, or the first byte among
/// them that is no symbol. Up to three symbols left over at the end count for nothing.
pub open spec fn decoded_groups(s: Seq<u8>) -> Result<Seq<u8>, u8>
    decreases s.len(),
{
    if s.len() < 4 {
        Ok(Seq::empty())
    } else {
        match first_bad(s.take(4)) {
            Some(c) => Err(c),
            None => match decoded_groups(s.skip(4)) {
                Err(c) => Err(c),
                Ok(rest) => Ok(decoded_group(s.take(4)) + rest),
            },
        }
    }
}

/// Whether a byte is neither a line feed nor a carriage return.
pub open spec fn not_line_break(b: u8) -> bool {
    b != 10 && b != 13
}

/// The bytes without the line breaks among them.
pub open spec fn without_breaks(s: Seq<u8>) -> Seq<u8>
    decreases s.len(),
{
    if s.len() == 0 {
        Seq::empty()
    } else if not_line_break(s.last()) {
        without_breaks(s.drop_last()).push(s.last())
    } else {
        without_breaks(s.drop_last())
    }
}

/// The bytes that a base64 text stands for, wherever its lines are broken.
pub open spec fn decoded(s: Seq<char>) -> Result<Seq<u8>, u8> {
    decoded_groups(without_breaks(encode_utf8(s)))
}

fn symbol_of(v: u8) -> (r: char)
    requires
        v < 64,
    ensures
        r == symbol(v as int),
{
    if v < 26 {
        (65 + v) as char
    } else if v < 52 {
        (97 + (v - 26)) as char
    } else if v < 62 {
        (48 + (v - 52)) as char
    } else if v == 62 {
        '+'
    } else {
        '/'
    }
}

fn value_of(c: u8) -> (r: Option<u8>)
    ensures
        r is Some <==> symbol_value(c) is Some,
        r matches Some(v) ==> v < 64 && symbol_value(c) == Some(v as int),
{
    if 65 <= c && c <= 90 {
        Some(c - 65)
    } else if 97 <= c && c <= 122 {
        Some(c - 97 + 26)
    } else if 48 <= c && c <= 57 {
        Some(c - 48 + 52)
    } else if c == 43 {
        Some(62)
    } else if c == 47 {
        Some(63)
    } else if c == 61 {
        Some(0)
    } else {
        None
    }
}

/// Writes bytes as base64.
pub fn base64_encode(data: &[u8]) -> (r: String)
    ensures
        r@ == encoded(data@),
{
    let n: usize = data.len();
    let mut out: String = String::new();
    let mut i: usize = 0;
    assert(data@.skip(0) =~= data@);
    assert(out@ + encoded(data@) =~= encoded(data@));
    while i < n
        invariant
            i <= n,
            n == data@.len(),
            out@ + encoded(data@.skip(i as int)) =~= encoded(data@),
        decreases n - i,
    {
        let ghost rest = data@.skip(i as int);
        let ghost before = out@;
        let left: usize = n - i;
        let b0: u8 = data[i];
        let b1: u8 = if left > 1 {
            data[i + 1]
        } else {
            0
        };
        let b2: u8 = if left > 2 {
            data[i + 2]
        } else {
            0
        };
        let ghost g = if left > 3 {
            rest.take(3)
        } else {
            rest
        };
        proof {
            lemma_split_sextets(b0, b1, b2);
        }
        out.push(symbol_of(b0 >> 2));
        out.push(symbol_of((b0 & 3) << 4 | b1 >> 4));
        out.push(
            if left > 1 {
                symbol_of((b1 & 0xf) << 2 | b2 >> 6)
            } else {
                '='
            },
        );
        out.push(
            if left > 2 {
                symbol_of(b2 & 0x3f)
            } else {
                '='
            },
        );
        assert(out@ =~= before + encoded_group(g));
        if left > 3 {
            assert(rest.skip(3) =~= data@.skip(i + 3));
            i = i + 3;
        } else {
            assert(data@.skip(n as int) =~= Seq::<u8>::empty());
            assert(encoded(data@.skip(n as int)) =~= Seq::<char>::empty());
            i = n;
        }
    }
    assert(data@.skip(n as int) =~= Seq::<u8>::empty());
    assert(encoded(data@.skip(n as int)) =~= Seq::<char>::empty());
    out
}

proof fn lemma_split_sextets(b0: u8, b1: u8, b2: u8)
    ensures
        b0 >> 2 == b0 / 4,
        b0 >> 2 < 64,
        (b0 & 3) << 4 | b1 >> 4 == (b0 % 4) * 16 + b1 / 16,
        (b0 & 3) << 4 | b1 >> 4 < 64,
        (b1 & 0xf) << 2 | b2 >> 6 == (b1 % 16) * 4 + b2 / 64,
        (b1 & 0xf) << 2 | b2 >> 6 < 64,
        b2 & 0x3f == b2 % 64,
        b2 & 0x3f < 64,
{
    assert(b0 >> 2 == b0 / 4 && b0 >> 2 < 64) by (bit_vector);
    assert((b0 & 3) << 4 | b1 >> 4 == (b0 % 4) * 16 + b1 / 16 && (b0 & 3) << 4 | b1 >> 4 < 64)
        by (bit_vector);
    assert((b1 & 0xf) << 2 | b2 >> 6 == (b1 % 16) * 4 + b2 / 64 && (b1 & 0xf) << 2 | b2 >> 6 < 64)
        by (bit_vector);
    assert(b2 & 0x3f == b2 % 64 && b2 & 0x3f < 64) by (bit_vector);
}

/// Reads base64, wherever its lines are broken. On failure the error is the first byte that is no
/// base64 symbol.
pub fn base64_decode(s: &str) -> (r: Result<Vec<u8>, u8>)
    ensures
        match decoded(s@) {
            Ok(bytes) => r matches Ok(v) && v@ == bytes,
            Err(c) => r == Err::<Vec<u8>, u8>(c),
        },
{
    let bytes: Vec<u8> = drop_breaks(s.as_bytes());
    let n: usize = bytes.len();
    let mut out: Vec<u8> = Vec::new();
    let mut i: usize = 0;
    assert(bytes@.skip(0) =~= bytes@);
    proof {
        lemma_prepend_nothing(decoded_groups(bytes@));
    }
    while n - i >= 4
        invariant
            i <= n,
            n == bytes@.len(),
            prepended(out@, decoded_groups(bytes@.skip(i as int))) == decoded_groups(bytes@),
            bytes@ == without_breaks(encode_utf8(s@)),
        decreases n - i,
    {
        let ghost rest = bytes@.skip(i as int);
        let ghost g = rest.take(4);
        let ghost before = out@;
        assert(g.skip(1).skip(1).skip(1).skip(1).len() == 0);
        assert(g[0] == bytes@[i as int] && g[1] == bytes@[i + 1] && g[2] == bytes@[i + 2] && g[3]
            == bytes@[i + 3]);
        assert(g.skip(1)[0] == g[1]);
        assert(g.skip(1).skip(1)[0] == g[2]);
        assert(g.skip(1).skip(1).skip(1)[0] == g[3]);
        proof {
            reveal_with_fuel(first_bad, 5);
        }
        let v0: u8 = match value_of(bytes[i]) {
            Some(v) => v,
            None => return Err(bytes[i]),
        };
        let v1: u8 = match value_of(bytes[i + 1]) {
            Some(v) => v,
            None => return Err(bytes[i + 1]),
        };
        let v2: u8 = match value_of(bytes[i + 2]) {
            Some(v) => v,
            None => return Err(bytes[i + 2]),
        };
        let v3: u8 = match value_of(bytes[i + 3]) {
            Some(v) => v,
            None => return Err(bytes[i + 3]),
        };
        proof {
            lemma_join_sextets(v0, v1, v2, v3);
        }
        out.push(v0 << 2 | v1 >> 4);
        if bytes[i + 2] != 61 {
            out.push((v1 & 0xf) << 4 | v2 >> 2);
        }
        if bytes[i + 3] != 61 {
            out.push((v2 & 3) << 6 | v3);
        }
        assert(out@ =~= before + decoded_group(g));
        assert(rest.skip(4) =~= bytes@.skip(i + 4));
        proof {
            lemma_prepend_twice(before, decoded_group(g), decoded_groups(bytes@.skip(i + 4)));
        }
        i = i + 4;
    }
    assert(decoded_groups(bytes@.skip(i as int)) == Ok::<Seq<u8>, u8>(Seq::empty()));
    assert(out@ + Seq::<u8>::empty() =~= out@);
    Ok(out)
}

/// A result with more bytes put in front of it.
spec fn prepended(front: Seq<u8>, r: Result<Seq<u8>, u8>) -> Result<Seq<u8>, u8> {
    match r {
        Ok(rest) => Ok(front + rest),
        Err(c) => Err(c),
    }
}

proof fn lemma_prepend_nothing(r: Result<Seq<u8>, u8>)
    ensures
        prepended(Seq::empty(), r) == r,
{
    if let Ok(rest) = r {
        assert(Seq::<u8>::empty() + rest =~= rest);
    }
}

proof fn lemma_prepend_twice(a: Seq<u8>, b: Seq<u8>, r: Result<Seq<u8>, u8>)
    ensures
        prepended(a + b, r) == prepended(a, prepended(b, r)),
{
    if let Ok(rest) = r {
        assert(a + b + rest =~= a + (b + rest));
    }
}

fn drop_breaks(bytes: &[u8]) -> (r: Vec<u8>)
    ensures
        r@ == without_breaks(bytes@),
{
    let n: usize = bytes.len();
    let mut out: Vec<u8> = Vec::new();
    let mut i: usize = 0;
    while i < n
        invariant
            i <= n,
            n == bytes@.len(),
            out@ == without_breaks(bytes@.take(i as int)),
        decreases n - i,
    {
        assert(bytes@.take(i + 1).drop_last() =~= bytes@.take(i as int));
        let b: u8 = bytes[i];
        if b != 10 && b != 13 {
            out.push(b);
        }
        i = i + 1;
    }
    assert(bytes@.take(n as int) =~= bytes@);
    out
}

proof fn lemma_join_sextets(v0: u8, v1: u8, v2: u8, v3: u8)
    requires
        v0 < 64,
        v1 < 64,
        v2 < 64,
        v3 < 64,
    ensures
        v0 << 2 | v1 >> 4 == v0 * 4 + v1 / 16,
        (v1 & 0xf) << 4 | v2 >> 2 == (v1 % 16) * 16 + v2 / 4,
        (v2 & 3) << 6 | v3 == (v2 % 4) * 64 + v3,
{
    assert(v0 << 2 | v1 >> 4 == v0 * 4 + v1 / 16) by (bit_vector)
        requires
            v0 < 64,
            v1 < 64,
    ;
    assert((v1 & 0xf) << 4 | v2 >> 2 == (v1 % 16) * 16 + v2 / 4) by (bit_vector)
        requires
            v1 < 64,
            v2 < 64,
    ;
    assert((v2 & 3) << 6 | v3 == (v2 % 4) * 64 + v3) by (bit_vector)
        requires
            v2 < 64,
            v3 < 64,
    ;
}

// ----------------------------------------------------------------------------------------------
// What base64 promises
// ----------------------------------------------------------------------------------------------

/// The bytes of an ASCII text.
spec fn ascii_bytes(s: Seq<char>) -> Seq<u8> {
    Seq::new(s.len(), |i: int| s[i] as u8)
}

proof fn lemma_symbol(v: int)
    requires
        0 <= v < 64,
    ensures
        symbol_value(symbol(v) as u8) == Some(v),
        '\0' <= symbol(v) <= '\u{7f}',
        not_line_break(symbol(v) as u8),
        symbol(v) as u8 != 61,
{
}

proof fn lemma_group_round_trip(g: Seq<u8>)
    requires
        1 <= g.len() <= 3,
    ensures
        first_bad(ascii_bytes(encoded_group(g))) is None,
        decoded_group(ascii_bytes(encoded_group(g))) == g,
        forall|i: int|
            0 <= i < 4 ==> '\0' <= (#[trigger] encoded_group(g)[i]) <= '\u{7f}' && not_line_break(
                encoded_group(g)[i] as u8,
            ),
{
    let b0 = g[0] as int;
    let b1 = if g.len() > 1 {
        g[1] as int
    } else {
        0
    };
    let b2 = if g.len() > 2 {
        g[2] as int
    } else {
        0
    };
    lemma_symbol(b0 / 4);
    lemma_symbol((b0 % 4) * 16 + b1 / 16);
    lemma_symbol((b1 % 16) * 4 + b2 / 64);
    lemma_symbol(b2 % 64);
    let t = ascii_bytes(encoded_group(g));
    reveal_with_fuel(first_bad, 5);
    assert(t.skip(1)[0] == t[1]);
    assert(t.skip(1).skip(1)[0] == t[2]);
    assert(t.skip(1).skip(1).skip(1)[0] == t[3]);
    assert(t.skip(1).skip(1).skip(1).skip(1).len() == 0);
    assert(decoded_group(t) =~= g);
}

proof fn lemma_encoded_is_plain(data: Seq<u8>)
    ensures
        encoded(data).len() == 4 * ((data.len() + 2) / 3),
        forall|i: int|
            0 <= i < encoded(data).len() ==> '\0' <= (#[trigger] encoded(data)[i]) <= '\u{7f}'
                && not_line_break(encoded(data)[i] as u8),
    decreases data.len(),
{
    if data.len() == 0 {
    } else if data.len() <= 3 {
        lemma_group_round_trip(data);
    } else {
        lemma_group_round_trip(data.take(3));
        lemma_encoded_is_plain(data.skip(3));
        let a = encoded_group(data.take(3));
        let b = encoded(data.skip(3));
        assert forall|i: int| 0 <= i < encoded(data).len() implies '\0' <= (
        #[trigger] encoded(data)[i]) <= '\u{7f}' && not_line_break(encoded(data)[i] as u8) by {
            if i < 4 {
                assert(encoded(data)[i] == a[i]);
            } else {
                assert(encoded(data)[i] == b[i - 4]);
            }
        }
    }
}

proof fn lemma_no_breaks(s: Seq<u8>)
    requires
        forall|i: int| 0 <= i < s.len() ==> not_line_break(#[trigger] s[i]),
    ensures
        without_breaks(s) == s,
    decreases s.len(),
{
    if s.len() > 0 {
        assert forall|i: int| 0 <= i < s.drop_last().len() implies not_line_break(
            #[trigger] s.drop_last()[i],
        ) by {
            assert(s.drop_last()[i] == s[i]);
        }
        lemma_no_breaks(s.drop_last());
        assert(s.drop_last().push(s.last()) =~= s);
    }
}

proof fn lemma_groups_round_trip(data: Seq<u8>)
    ensures
        decoded_groups(ascii_bytes(encoded(data))) == Ok::<Seq<u8>, u8>(data),
    decreases data.len(),
{
    let t = ascii_bytes(encoded(data));
    if data.len() == 0 {
        assert(data =~= Seq::<u8>::empty());
    } else if data.len() <= 3 {
        lemma_group_round_trip(data);
        assert(t.take(4) =~= t);
        assert(t.skip(4).len() == 0);
        assert(decoded_groups(t.skip(4)) == Ok::<Seq<u8>, u8>(Seq::empty()));
        assert(data + Seq::<u8>::empty() =~= data);
    } else {
        lemma_group_round_trip(data.take(3));
        lemma_groups_round_trip(data.skip(3));
        assert(t.take(4) =~= ascii_bytes(encoded_group(data.take(3))));
        assert(t.skip(4) =~= ascii_bytes(encoded(data.skip(3))));
        assert(data.take(3) + data.skip(3) =~= data);
    }
}

/// What was written as base64 is read back unchanged.
pub proof fn law_base64_round_trip(data: Seq<u8>)
    ensures
        decoded(encoded(data)) == Ok::<Seq<u8>, u8>(data),
{
    let s = encoded(data);
    lemma_encoded_is_plain(data);
    assert(is_ascii_chars(s));
    vstd::utf8::is_ascii_chars_encode_utf8(s);
    let t = encode_utf8(s);
    assert(t =~= ascii_bytes(s));
    assert forall|i: int| 0 <= i < t.len() implies not_line_break(#[trigger] t[i]) by {
        assert(t[i] == s[i] as u8);
    }
    lemma_no_breaks(t);
    lemma_groups_round_trip(data);
}

/// Different bytes have different base64 texts.
pub proof fn law_base64_is_injective(a: Seq<u8>, b: Seq<u8>)
    ensures
        encoded(a) == encoded(b) <==> a == b,
{
    law_base64_round_trip(a);
    law_base64_round_trip(b);
}

/// A base64 text has four symbols for every three bytes begun.
pub proof fn law_base64_length(data: Seq<u8>)
    ensures
        encoded(data).len() == 4 * ((data.len() + 2) / 3),
{
    lemma_encoded_is_plain(data);
}

/// A line break anywhere does not change what a base64 text stands for.
pub proof fn law_base64_ignores_line_breaks(a: Seq<char>, c: char, b: Seq<char>)
    requires
        c == '\n' || c == '\r',
    ensures
        decoded(a + seq![c] + b) == decoded(a + b),
{
    lemma_encode_concat(a + seq![c], b);
    lemma_encode_concat(a, seq![c]);
    lemma_encode_concat(a, b);
    let m = encode_utf8(seq![c]);
    vstd::utf8::is_ascii_chars_encode_utf8(seq![c]);
    assert(seq![c][0] as u8 == m[0]);
    lemma_breaks_concat(encode_utf8(a) + m, encode_utf8(b));
    lemma_breaks_concat(encode_utf8(a), m);
    lemma_breaks_concat(encode_utf8(a), encode_utf8(b));
    assert(m.drop_last() =~= Seq::<u8>::empty());
    assert(without_breaks(m.drop_last()) =~= Seq::<u8>::empty());
    assert(without_breaks(m) =~= Seq::<u8>::empty());
    assert(without_breaks(encode_utf8(a)) + Seq::<u8>::empty() =~= without_breaks(encode_utf8(a)));
}

proof fn lemma_encode_concat(a: Seq<char>, b: Seq<char>)
    ensures
        encode_utf8(a + b) == encode_utf8(a) + encode_utf8(b),
    decreases a.len(),
{
    if a.len() == 0 {
        assert(a + b =~= b);
        assert(encode_utf8(a) + encode_utf8(b) =~= encode_utf8(b));
    } else {
        lemma_encode_concat(a.drop_first(), b);
        assert((a + b).drop_first() =~= a.drop_first() + b);
        assert(encode_utf8(a + b) =~= encode_utf8(a) + encode_utf8(b));
    }
}

proof fn lemma_breaks_concat(a: Seq<u8>, b: Seq<u8>)
    ensures
        without_breaks(a + b) == without_breaks(a) + without_breaks(b),
    decreases b.len(),
{
    if b.len() == 0 {
        assert(a + b =~= a);
        assert(without_breaks(a) + without_breaks(b) =~= without_breaks(a));
    } else {
        lemma_breaks_concat(a, b.drop_last());
        assert((a + b).drop_last() =~= a + b.drop_last());
        assert(without_breaks(a + b) =~= without_breaks(a) + without_breaks(b));
    }
}

// ----------------------------------------------------------------------------------------------
// The cipher
// ----------------------------------------------------------------------------------------------

/// How many bytes a key has.
pub const KEY_BYTES: usize = 32;

/// How many bytes a nonce has.
pub const NONCE_BYTES: usize = 12;

/// The longest plaintext that AES-GCM encrypts, in bytes.
pub const MAX_PLAINTEXT: u64 = 68_719_476_736;

/// The error of the cipher, which says nothing but that the operation failed.
#[verifier::external_type_specification]
#[verifier::external_body]
pub struct ExCipherError(aes_gcm::Error);

/// What AES-256-GCM makes of a plaintext under a key and a nonce, without associated data: the
/// ciphertext followed by its tag, if it can be encrypted.
pub uninterp spec fn aes256gcm_sealed(key: Seq<u8>, nonce: Seq<u8>, plaintext: Seq<u8>) -> Option<
    Seq<u8>,
>;

/// What AES-256-GCM makes of a ciphertext and its tag under a key and a nonce, without associated
/// data: the plaintext, if the tag is authentic.
pub uninterp spec fn aes256gcm_opened(key: Seq<u8>, nonce: Seq<u8>, ciphertext: Seq<u8>) -> Option<
    Seq<u8>,
>;

/// `Aes256Gcm::encrypt` of the crate `aes_gcm`: it fails exactly on a plaintext that is too long,
/// adds a tag of sixteen bytes, and `Aes256Gcm::decrypt` with the same key and nonce gives the
/// plaintext back.
#[verifier::external_body]
fn aes_encrypt(key: &Vec<u8>, nonce: &Vec<u8>, plaintext: &[u8]) -> (r: Result<
    Vec<u8>,
    aes_gcm::Error,
>)
    requires
        key@.len() == KEY_BYTES,
        nonce@.len() == NONCE_BYTES,
    ensures
        r is Ok <==> plaintext@.len() <= MAX_PLAINTEXT,
        r is Ok <==> aes256gcm_sealed(key@, nonce@, plaintext@) is Some,
        r matches Ok(c) ==> aes256gcm_sealed(key@, nonce@, plaintext@) == Some(c@),
        r matches Ok(c) ==> c@.len() == plaintext@.len() + 16,
        r matches Ok(c) ==> aes256gcm_opened(key@, nonce@, c@) == Some(plaintext@),
{
    let cipher = Aes256Gcm::new(Key::<Aes256Gcm>::from_slice(key));
    cipher.encrypt(Nonce::from_slice(nonce), plaintext)
}

/// `Aes256Gcm::decrypt` of the crate `aes_gcm`: it fails on a ciphertext that is too short to hold
/// a tag, and what it makes of any other depends on nothing but the key, the nonce and the
/// ciphertext. What it opens is what `Aes256Gcm::encrypt` with the same key and nonce makes of the
/// plaintext, where that is short enough to be encrypted. That a wrong key is found out is a matter
/// of odds, and is not claimed.
#[verifier::external_body]
fn aes_decrypt(key: &Vec<u8>, nonce: &Vec<u8>, ciphertext: &[u8]) -> (r: Result<
    Vec<u8>,
    aes_gcm::Error,
>)
    requires
        key@.len() == KEY_BYTES,
        nonce@.len() == NONCE_BYTES,
    ensures
        r is Ok <==> aes256gcm_opened(key@, nonce@, ciphertext@) is Some,
        r matches Ok(p) ==> aes256gcm_opened(key@, nonce@, ciphertext@) == Some(p@),
        r matches Ok(p) ==> ciphertext@.len() == p@.len() + 16,
        r matches Ok(p) ==> p@.len() <= MAX_PLAINTEXT ==> aes256gcm_sealed(key@, nonce@, p@)
            == Some(ciphertext@),
{
    let cipher = Aes256Gcm::new(Key::<Aes256Gcm>::from_slice(key));
    cipher.decrypt(Nonce::from_slice(nonce), ciphertext)
}

/// `Aes256Gcm::generate_nonce` of the crate `aes_gcm`: twelve bytes from the operating system's
/// random source.
#[verifier::external_body]
fn random_nonce() -> (r: Vec<u8>)
    ensures
        r@.len() == NONCE_BYTES,
{
    Aes256Gcm::generate_nonce(&mut OsRng).to_vec()
}

/// `Aes256Gcm::generate_key` of the crate `aes_gcm`: thirty-two bytes from the operating system's
/// random source.
#[verifier::external_body]
fn random_key() -> (r: Vec<u8>)
    ensures
        r@.len() == KEY_BYTES,
{
    Aes256Gcm::generate_key(OsRng).to_vec()
}

/// Why a text could not be encrypted or decrypted.
#[derive(Clone, Copy, PartialEq, Eq, Structural, Debug)]
pub enum CryptoError {
    /// The stored key has the wrong length.
    KeyLength,
    /// The plaintext is too long for the cipher.
    Encrypt,
    /// The text holds this byte, which is no base64 symbol.
    InvalidBase64(u8),
    /// The decoded bytes cannot hold a nonce.
    TooShort,
    /// The ciphertext is not authentic under this key.
    Decrypt,
    /// The plaintext is no UTF-8.
    NotUtf8,
}

impl CryptoError {
    /// What the user is told.
    pub open spec fn text(self) -> Seq<char> {
        match self {
            CryptoError::KeyLength =>
                "encryption.key must be exactly 32 bytes — delete it to regenerate"@,
            CryptoError::Encrypt => "AES-GCM encrypt failed: aead::Error"@,
            CryptoError::InvalidBase64(_) => "Invalid base64 in encrypted chunk"@,
            CryptoError::TooShort => "Encrypted data too short to contain nonce"@,
            CryptoError::Decrypt => "AES-GCM decrypt failed: aead::Error"@,
            CryptoError::NotUtf8 => "Decrypted chunk is not valid UTF-8"@,
        }
    }

    /// What the user is told.
    pub fn message(&self) -> (r: String)
        ensures
            r@ == self.text(),
    {
        match self {
            CryptoError::KeyLength =>
                "encryption.key must be exactly 32 bytes — delete it to regenerate".to_owned(),
            CryptoError::Encrypt => "AES-GCM encrypt failed: aead::Error".to_owned(),
            CryptoError::InvalidBase64(_) => "Invalid base64 in encrypted chunk".to_owned(),
            CryptoError::TooShort => "Encrypted data too short to contain nonce".to_owned(),
            CryptoError::Decrypt => "AES-GCM decrypt failed: aead::Error".to_owned(),
            CryptoError::NotUtf8 => "Decrypted chunk is not valid UTF-8".to_owned(),
        }
    }
}

/// The view of a result that carries a string.
pub open spec fn text_result(r: Result<String, CryptoError>) -> Result<Seq<char>, CryptoError> {
    match r {
        Ok(s) => Ok(s@),
        Err(e) => Err(e),
    }
}

/// The encrypted text that the cipher's answer is written down as.
pub open spec fn written_down(nonce: Seq<u8>, sealed: Option<Seq<u8>>) -> Result<
    Seq<char>,
    CryptoError,
> {
    match sealed {
        Some(c) => Ok(encoded(nonce + c)),
        None => Err(CryptoError::Encrypt),
    }
}

/// The encrypted form of a text under a key and a nonce.
pub open spec fn encrypted_text(key: Seq<u8>, nonce: Seq<u8>, plaintext: Seq<char>) -> Result<
    Seq<char>,
    CryptoError,
> {
    written_down(nonce, aes256gcm_sealed(key, nonce, encode_utf8(plaintext)))
}

/// The nonce and the ciphertext in an encrypted text.
pub open spec fn taken_apart(s: Seq<char>) -> Result<(Seq<u8>, Seq<u8>), CryptoError> {
    match decoded(s) {
        Err(c) => Err(CryptoError::InvalidBase64(c)),
        Ok(bytes) => if bytes.len() < NONCE_BYTES {
            Err(CryptoError::TooShort)
        } else {
            Ok((bytes.take(NONCE_BYTES as int), bytes.skip(NONCE_BYTES as int)))
        },
    }
}

/// The text that the cipher's answer stands for.
pub open spec fn read_out(opened: Option<Seq<u8>>) -> Result<Seq<char>, CryptoError> {
    match opened {
        None => Err(CryptoError::Decrypt),
        Some(bytes) => if valid_utf8(bytes) {
            Ok(decode_utf8(bytes))
        } else {
            Err(CryptoError::NotUtf8)
        },
    }
}

/// The text that an encrypted text stands for under a key.
pub open spec fn decrypted_text(key: Seq<u8>, s: Seq<char>) -> Result<Seq<char>, CryptoError> {
    match taken_apart(s) {
        Err(e) => Err(e),
        Ok(parts) => read_out(aes256gcm_opened(key, parts.0, parts.1)),
    }
}

/// The key of an encryptor, where there is one.
pub open spec fn encryptor_key(encryptor: Option<&Encryptor>) -> Option<Seq<u8>> {
    match encryptor {
        Some(e) => Some(e.key()),
        None => None,
    }
}

/// The chunk that a stored text stands for: under a key the text it decrypts to, and itself without
/// one.
pub open spec fn stored_chunk(key: Option<Seq<u8>>, stored: Seq<char>) -> Result<
    Seq<char>,
    CryptoError,
> {
    match key {
        Some(k) => decrypted_text(k, stored),
        None => Ok(stored),
    }
}

/// The view of an optional row of bytes.
pub open spec fn bytes_option(v: Option<Vec<u8>>) -> Option<Seq<u8>> {
    match v {
        Some(b) => Some(b@),
        None => None,
    }
}

/// Writes the nonce and the cipher's answer down as an encrypted text.
pub fn write_down(nonce: Vec<u8>, sealed: Option<Vec<u8>>) -> (r: Result<String, CryptoError>)
    ensures
        text_result(r) == written_down(nonce@, bytes_option(sealed)),
{
    match sealed {
        Some(c) => {
            let mut combined: Vec<u8> = nonce;
            let mut tail: Vec<u8> = c;
            combined.append(&mut tail);
            Ok(base64_encode(combined.as_slice()))
        },
        None => Err(CryptoError::Encrypt),
    }
}

/// Takes an encrypted text apart into its nonce and its ciphertext.
pub fn take_apart(encoded_text: &str) -> (r: Result<(Vec<u8>, Vec<u8>), CryptoError>)
    ensures
        match taken_apart(encoded_text@) {
            Ok(parts) => r matches Ok(p) && p.0@ == parts.0 && p.1@ == parts.1,
            Err(e) => r == Err::<(Vec<u8>, Vec<u8>), CryptoError>(e),
        },
{
    match base64_decode(encoded_text) {
        Err(c) => Err(CryptoError::InvalidBase64(c)),
        Ok(bytes) => {
            if bytes.len() < NONCE_BYTES {
                return Err(CryptoError::TooShort);
            }
            let mut nonce: Vec<u8> = bytes;
            let ghost all = nonce@;
            let ciphertext: Vec<u8> = nonce.split_off(NONCE_BYTES);
            assert(nonce@ =~= all.take(NONCE_BYTES as int));
            assert(ciphertext@ =~= all.skip(NONCE_BYTES as int));
            Ok((nonce, ciphertext))
        },
    }
}

/// Reads the cipher's answer as text.
pub fn read_plaintext(opened: Option<Vec<u8>>) -> (r: Result<String, CryptoError>)
    ensures
        text_result(r) == read_out(bytes_option(opened)),
{
    match opened {
        None => Err(CryptoError::Decrypt),
        Some(bytes) => match String::from_utf8(bytes) {
            Ok(s) => Ok(s),
            Err(_) => Err(CryptoError::NotUtf8),
        },
    }
}

/// Encrypts and decrypts texts under one key of thirty-two bytes.
pub struct Encryptor {
    key: Vec<u8>,
}

impl Encryptor {
    /// The key.
    pub closed spec fn key(self) -> Seq<u8> {
        self.key@
    }

    #[verifier::type_invariant]
    spec fn well_formed(self) -> bool {
        self.key@.len() == KEY_BYTES
    }

    /// Takes the key that is stored, or makes a new one where none is. A new key is handed back
    /// beside the encryptor: it has to be stored, or nothing that is encrypted under it can be read
    /// again.
    pub fn load_or_create(stored: Option<Vec<u8>>) -> (r: Result<
        (Encryptor, Option<Vec<u8>>),
        CryptoError,
    >)
        ensures
            match stored {
                Some(bytes) => if bytes@.len() == KEY_BYTES {
                    r matches Ok(p) && p.0.key() == bytes@ && p.1 is None
                } else {
                    r == Err::<(Encryptor, Option<Vec<u8>>), CryptoError>(CryptoError::KeyLength)
                },
                None => r matches Ok(p) && p.0.key().len() == KEY_BYTES && (p.1 matches Some(k)
                    && k@ == p.0.key()),
            },
    {
        match stored {
            Some(bytes) => {
                if bytes.len() != KEY_BYTES {
                    return Err(CryptoError::KeyLength);
                }
                Ok((Encryptor { key: bytes }, None))
            },
            None => {
                let key: Vec<u8> = random_key();
                let copy: Vec<u8> = key.clone();
                assert(copy@ =~= key@);
                Ok((Encryptor { key }, Some(copy)))
            },
        }
    }

    /// Encrypts a text under a nonce of twelve bytes. What was encrypted is decrypted again under
    /// the same key.
    pub fn encrypt_with_nonce(&self, plaintext: &str, nonce: Vec<u8>) -> (r: Result<
        String,
        CryptoError,
    >)
        requires
            nonce@.len() == NONCE_BYTES,
        ensures
            text_result(r) == encrypted_text(self.key(), nonce@, plaintext@),
            r is Ok <==> encode_utf8(plaintext@).len() <= MAX_PLAINTEXT,
            r matches Ok(s) ==> s@.len() == 4 * ((encode_utf8(plaintext@).len() + 30) / 3),
            r matches Ok(s) ==> (decoded(s@) matches Ok(b) && b.len() == encode_utf8(
                plaintext@,
            ).len() + 28),
            r matches Ok(s) ==> decrypted_text(self.key(), s@) == Ok::<Seq<char>, CryptoError>(
                plaintext@,
            ),
    {
        proof {
            use_type_invariant(self);
        }
        let sealed: Option<Vec<u8>> = match aes_encrypt(&self.key, &nonce, plaintext.as_bytes()) {
            Ok(c) => Some(c),
            Err(_) => None,
        };
        proof {
            if sealed is Some {
                let c = sealed->0;
                let all = nonce@ + c@;
                law_base64_round_trip(all);
                law_base64_length(all);
                assert(all.take(NONCE_BYTES as int) =~= nonce@);
                assert(all.skip(NONCE_BYTES as int) =~= c@);
                vstd::utf8::encode_utf8_valid_utf8(plaintext@);
                vstd::utf8::encode_utf8_decode_utf8(plaintext@);
            }
        }
        write_down(nonce, sealed)
    }

    /// Encrypts a text under a fresh random nonce: base64 of the nonce and the ciphertext. What was
    /// encrypted is decrypted again under the same key.
    pub fn encrypt(&self, plaintext: &str) -> (r: Result<String, CryptoError>)
        ensures
            exists|nonce: Seq<u8>|
                nonce.len() == NONCE_BYTES && text_result(r) == #[trigger] encrypted_text(
                    self.key(),
                    nonce,
                    plaintext@,
                ),
            r is Ok <==> encode_utf8(plaintext@).len() <= MAX_PLAINTEXT,
            r matches Ok(s) ==> s@.len() == 4 * ((encode_utf8(plaintext@).len() + 30) / 3),
            r matches Ok(s) ==> (decoded(s@) matches Ok(b) && b.len() == encode_utf8(
                plaintext@,
            ).len() + 28),
            r matches Ok(s) ==> decrypted_text(self.key(), s@) == Ok::<Seq<char>, CryptoError>(
                plaintext@,
            ),
    {
        let nonce: Vec<u8> = random_nonce();
        self.encrypt_with_nonce(plaintext, nonce)
    }

    /// Decrypts an encrypted text. It holds a nonce and a tag, and its ciphertext is the one that the
    /// text has under this key and that nonce, where the text is short enough to be encrypted.
    pub fn decrypt(&self, encoded_text: &str) -> (r: Result<String, CryptoError>)
        ensures
            text_result(r) == decrypted_text(self.key(), encoded_text@),
            r matches Ok(t) ==> (decoded(encoded_text@) matches Ok(b) && b.len() == encode_utf8(
                t@,
            ).len() + 28),
            r matches Ok(t) ==> encode_utf8(t@).len() <= MAX_PLAINTEXT ==> (taken_apart(
                encoded_text@,
            ) matches Ok(parts) && aes256gcm_sealed(self.key(), parts.0, encode_utf8(t@)) == Some(
                parts.1,
            )),
    {
        proof {
            use_type_invariant(self);
        }
        match take_apart(encoded_text) {
            Err(e) => Err(e),
            Ok((nonce, ciphertext)) => {
                let opened: Option<Vec<u8>> = match aes_decrypt(
                    &self.key,
                    &nonce,
                    ciphertext.as_slice(),
                ) {
                    Ok(p) => Some(p),
                    Err(_) => None,
                };
                proof {
                    if opened is Some && valid_utf8(opened->0@) {
                        vstd::utf8::decode_utf8_encode_utf8(opened->0@);
                    }
                }
                read_plaintext(opened)
            },
        }
    }
}

/// The chunk as it is stored: encrypted where there is an encryptor, and as it is where there is
/// none. What is stored so is read back by [`from_store`] with the same encryptor.
pub fn to_store(encryptor: Option<&Encryptor>, chunk: &str) -> (r: Result<String, CryptoError>)
    ensures
        match encryptor {
            None => text_result(r) == Ok::<Seq<char>, CryptoError>(chunk@),
            Some(e) => exists|nonce: Seq<u8>|
                nonce.len() == NONCE_BYTES && text_result(r) == #[trigger] encrypted_text(
                    e.key(),
                    nonce,
                    chunk@,
                ),
        },
        r is Ok <==> encryptor is None || encode_utf8(chunk@).len() <= MAX_PLAINTEXT,
        r matches Ok(s) ==> stored_chunk(encryptor_key(encryptor), s@) == Ok::<
            Seq<char>,
            CryptoError,
        >(chunk@),
{
    match encryptor {
        None => Ok(chunk.to_owned()),
        Some(e) => e.encrypt(chunk),
    }
}

/// The chunk that was stored, with the same encryptor or without one.
pub fn from_store(encryptor: Option<&Encryptor>, stored: &str) -> (r: Result<String, CryptoError>)
    ensures
        text_result(r) == stored_chunk(encryptor_key(encryptor), stored@),
{
    match encryptor {
        None => Ok(stored.to_owned()),
        Some(e) => e.decrypt(stored),
    }
}

/// Whatever is encrypted, and under whichever keys: different nonces give different encrypted
/// texts.
pub proof fn law_different_nonces_differ(
    key_a: Seq<u8>,
    nonce_a: Seq<u8>,
    text_a: Seq<char>,
    key_b: Seq<u8>,
    nonce_b: Seq<u8>,
    text_b: Seq<char>,
)
    requires
        nonce_a.len() == NONCE_BYTES,
        nonce_b.len() == NONCE_BYTES,
        nonce_a != nonce_b,
        encrypted_text(key_a, nonce_a, text_a) is Ok,
        encrypted_text(key_b, nonce_b, text_b) is Ok,
    ensures
        encrypted_text(key_a, nonce_a, text_a) != encrypted_text(key_b, nonce_b, text_b),
{
    let a = nonce_a + aes256gcm_sealed(key_a, nonce_a, encode_utf8(text_a)).unwrap();
    let b = nonce_b + aes256gcm_sealed(key_b, nonce_b, encode_utf8(text_b)).unwrap();
    law_base64_is_injective(a, b);
    if a == b {
        assert(a.take(NONCE_BYTES as int) =~= nonce_a);
        assert(b.take(NONCE_BYTES as int) =~= nonce_b);
    }
}

// ----------------------------------------------------------------------------------------------
// What base64 is, symbol by symbol
// ----------------------------------------------------------------------------------------------

proof fn lemma_alphabet(v: int)
    requires
        0 <= v < 64,
    ensures
        symbol(v) == "ABCDEFGHIJKLMNOPQRSTUVWXYZabcdefghijklmnopqrstuvwxyz0123456789+/"@[v],
{
    reveal_strlit("ABCDEFGHIJKLMNOPQRSTUVWXYZabcdefghijklmnopqrstuvwxyz0123456789+/");
    let alphabet = "ABCDEFGHIJKLMNOPQRSTUVWXYZabcdefghijklmnopqrstuvwxyz0123456789+/"@;
    assert(v < 26 ==> symbol(v) as int == 65 + v);
    assert(26 <= v < 52 ==> symbol(v) as int == 71 + v);
    assert(52 <= v < 62 ==> symbol(v) as int == v - 4);
    assert(alphabet[0] == 'A' && alphabet[1] == 'B' && alphabet[2] == 'C' && alphabet[3] == 'D' && alphabet[4] == 'E' && alphabet[5] == 'F');
    assert(alphabet[6] == 'G' && alphabet[7] == 'H' && alphabet[8] == 'I' && alphabet[9] == 'J' && alphabet[10] == 'K' && alphabet[11] == 'L');
    assert(alphabet[12] == 'M' && alphabet[13] == 'N' && alphabet[14] == 'O' && alphabet[15] == 'P' && alphabet[16] == 'Q' && alphabet[17] == 'R');
    assert(alphabet[18] == 'S' && alphabet[19] == 'T' && alphabet[20] == 'U' && alphabet[21] == 'V' && alphabet[22] == 'W' && alphabet[23] == 'X');
    assert(alphabet[24] == 'Y' && alphabet[25] == 'Z' && alphabet[26] == 'a' && alphabet[27] == 'b' && alphabet[28] == 'c' && alphabet[29] == 'd');
    assert(alphabet[30] == 'e' && alphabet[31] == 'f' && alphabet[32] == 'g' && alphabet[33] == 'h' && alphabet[34] == 'i' && alphabet[35] == 'j');
    assert(alphabet[36] == 'k' && alphabet[37] == 'l' && alphabet[38] == 'm' && alphabet[39] == 'n' && alphabet[40] == 'o' && alphabet[41] == 'p');
    assert(alphabet[42] == 'q' && alphabet[43] == 'r' && alphabet[44] == 's' && alphabet[45] == 't' && alphabet[46] == 'u' && alphabet[47] == 'v');
    assert(alphabet[48] == 'w' && alphabet[49] == 'x' && alphabet[50] == 'y' && alphabet[51] == 'z' && alphabet[52] == '0' && alphabet[53] == '1');
    assert(alphabet[54] == '2' && alphabet[55] == '3' && alphabet[56] == '4' && alphabet[57] == '5' && alphabet[58] == '6' && alphabet[59] == '7');
    assert(alphabet[60] == '8' && alphabet[61] == '9' && alphabet[62] == '+' && alphabet[63] == '/');
}

/// Three bytes are written as the four symbols of the alphabet that stand for their twenty-four bits,
/// six at a time; two bytes as three symbols and one byte as two, filled up to four with padding.
/// What comes behind three bytes is written behind their four symbols.
pub proof fn law_base64_goes_by_the_alphabet(a: u8, b: u8, c: u8, rest: Seq<u8>)
    ensures
        ({
            let alphabet = "ABCDEFGHIJKLMNOPQRSTUVWXYZabcdefghijklmnopqrstuvwxyz0123456789+/"@;
            let three = a * 65536 + b * 256 + c;
            let two = a * 65536 + b * 256;
            let one = a * 65536;
            &&& encoded(seq![a, b, c]) == seq![
                alphabet[three / 262144],
                alphabet[three / 4096 % 64],
                alphabet[three / 64 % 64],
                alphabet[three % 64],
            ]
            &&& encoded(seq![a, b]) == seq![
                alphabet[two / 262144],
                alphabet[two / 4096 % 64],
                alphabet[two / 64 % 64],
                '=',
            ]
            &&& encoded(seq![a]) == seq![alphabet[one / 262144], alphabet[one / 4096 % 64], '=', '=']
        }),
        encoded(seq![a, b, c] + rest) == encoded(seq![a, b, c]) + encoded(rest),
        encoded(Seq::empty()) == Seq::<char>::empty(),
{
    let x = a as int;
    let y = b as int;
    let z = c as int;
    lemma_bits_apart(x, y, z);
    lemma_bits_apart(x, y, 0);
    lemma_bits_apart(x, 0, 0);
    lemma_alphabet(x / 4);
    lemma_alphabet((x % 4) * 16 + y / 16);
    lemma_alphabet((y % 16) * 4 + z / 64);
    lemma_alphabet(z % 64);
    lemma_alphabet((y % 16) * 4);
    lemma_alphabet((x % 4) * 16);
    let head = seq![a, b, c];
    let all = head + rest;
    if rest.len() > 0 {
        assert(all.take(3) =~= head);
        assert(all.skip(3) =~= rest);
    } else {
        assert(all =~= head);
        assert(encoded(head) + encoded(rest) =~= encoded(head));
    }
}

proof fn lemma_bits_apart(x: int, y: int, z: int)
    requires
        0 <= x < 256 && 0 <= y < 256 && 0 <= z < 256,
    ensures
        (x * 65536 + y * 256 + z) / 262144 == x / 4,
        (x * 65536 + y * 256 + z) / 4096 % 64 == (x % 4) * 16 + y / 16,
        (x * 65536 + y * 256 + z) / 64 % 64 == (y % 16) * 4 + z / 64,
        (x * 65536 + y * 256 + z) % 64 == z % 64,
{
    let n = x * 65536 + y * 256 + z;
    assert(n == (x / 4) * 262144 + ((x % 4) * 65536 + y * 256 + z));
    vstd::arithmetic::div_mod::lemma_fundamental_div_mod_converse(
        n,
        262144,
        x / 4,
        (x % 4) * 65536 + y * 256 + z,
    );
    let m = x * 16 + y / 16;
    assert(n == m * 4096 + ((y % 16) * 256 + z));
    vstd::arithmetic::div_mod::lemma_fundamental_div_mod_converse(n, 4096, m, (y % 16) * 256 + z);
    assert(m == (x / 4) * 64 + ((x % 4) * 16 + y / 16));
    vstd::arithmetic::div_mod::lemma_fundamental_div_mod_converse(
        m,
        64,
        x / 4,
        (x % 4) * 16 + y / 16,
    );
    let k = x * 1024 + y * 4 + z / 64;
    assert(n == k * 64 + z % 64);
    vstd::arithmetic::div_mod::lemma_fundamental_div_mod_converse(n, 64, k, z % 64);
    assert(k == m * 64 + ((y % 16) * 4 + z / 64));
    vstd::arithmetic::div_mod::lemma_fundamental_div_mod_converse(
        k,
        64,
        m,
        (y % 16) * 4 + z / 64,
    );
}

proof fn lemma_breaks_filtered(s: Seq<u8>)
    ensures
        without_breaks(s) == s.filter(|b: u8| b != 10 && b != 13),
    decreases s.len(),
{
    reveal(Seq::filter);
    if s.len() > 0 {
        lemma_breaks_filtered(s.drop_last());
    }
}

proof fn lemma_first_bad(g: Seq<u8>)
    ensures
        first_bad(g) is None <==> forall|i: int| 0 <= i < g.len() ==> symbol_value(#[trigger] g[i]) is Some,
        first_bad(g) is Some ==> exists|i: int|
            0 <= i < g.len() && #[trigger] g[i] == first_bad(g)->0 && symbol_value(g[i]) is None
                && forall|j: int| 0 <= j < i ==> symbol_value(#[trigger] g[j]) is Some,
    decreases g.len(),
{
    if g.len() > 0 {
        if symbol_value(g[0]) is None {
            assert(g[0] == first_bad(g)->0);
        } else {
            let rest = g.skip(1);
            lemma_first_bad(rest);
            if first_bad(g) is Some {
                let k = choose|i: int|
                    0 <= i < rest.len() && #[trigger] rest[i] == first_bad(rest)->0 && symbol_value(
                        rest[i],
                    ) is None && forall|j: int|
                        0 <= j < i ==> symbol_value(#[trigger] rest[j]) is Some;
                assert(g[k + 1] == rest[k]);
                assert forall|j: int| 0 <= j < k + 1 implies symbol_value(
                    #[trigger] g[j],
                ) is Some by {
                    if j > 0 {
                        assert(g[j] == rest[j - 1]);
                    }
                }
            } else {
                assert forall|i: int| 0 <= i < g.len() implies symbol_value(
                    #[trigger] g[i],
                ) is Some by {
                    if i > 0 {
                        assert(g[i] == rest[i - 1]);
                    }
                }
            }
        }
    }
}

/// Where the first byte that is no symbol stands among the whole groups of four.
proof fn lemma_bad_place(s: Seq<u8>) -> (at: int)
    ensures
        decoded_groups(s) is Err ==> {
            &&& 0 <= at < s.len() / 4 * 4
            &&& decoded_groups(s) == Err::<Seq<u8>, u8>(s[at])
            &&& symbol_value(s[at]) is None
            &&& forall|j: int| 0 <= j < at ==> symbol_value(#[trigger] s[j]) is Some
        },
        decoded_groups(s) is Ok ==> forall|j: int|
            0 <= j < s.len() / 4 * 4 ==> symbol_value(#[trigger] s[j]) is Some,
    decreases s.len(),
{
    if s.len() < 4 {
        0
    } else {
        let g = s.take(4);
        let rest = s.skip(4);
        lemma_first_bad(g);
        let k = lemma_bad_place(rest);
        assert(s.len() / 4 * 4 == rest.len() / 4 * 4 + 4);
        if first_bad(g) is Some {
            let i = choose|i: int|
                0 <= i < g.len() && #[trigger] g[i] == first_bad(g)->0 && symbol_value(g[i]) is None
                    && forall|j: int| 0 <= j < i ==> symbol_value(#[trigger] g[j]) is Some;
            assert(s[i] == g[i]);
            assert forall|j: int| 0 <= j < i implies symbol_value(#[trigger] s[j]) is Some by {
                assert(s[j] == g[j]);
            }
            i
        } else {
            assert forall|j: int| 0 <= j < 4 implies symbol_value(#[trigger] s[j]) is Some by {
                assert(s[j] == g[j]);
            }
            if decoded_groups(rest) is Err {
                assert(s[k + 4] == rest[k]);
                assert forall|j: int| 0 <= j < k + 4 implies symbol_value(
                    #[trigger] s[j],
                ) is Some by {
                    if j >= 4 {
                        assert(s[j] == rest[j - 4]);
                    }
                }
            } else {
                assert forall|j: int| 0 <= j < s.len() / 4 * 4 implies symbol_value(
                    #[trigger] s[j],
                ) is Some by {
                    if j >= 4 {
                        assert(s[j] == rest[j - 4]);
                    }
                }
            }
            k + 4
        }
    }
}

/// A text is read as base64 exactly where, line breaks aside, every byte in a whole group of four is
/// a letter, a digit, `+`, `/` or `=`; otherwise the error is the first byte that is none of them.
pub proof fn law_only_the_alphabet_is_read(s: Seq<char>, c: u8)
    ensures
        ({
            let t = encode_utf8(s).filter(|b: u8| b != 10 && b != 13);
            &&& decoded(s) is Ok <==> forall|i: int|
                0 <= i < t.len() / 4 * 4 ==> 65 <= #[trigger] t[i] <= 90 || 97 <= t[i] <= 122 || 48
                    <= t[i] <= 57 || t[i] == 43 || t[i] == 47 || t[i] == 61
            &&& decoded(s) == Err::<Seq<u8>, u8>(c) ==> exists|i: int|
                0 <= i < t.len() / 4 * 4 && #[trigger] t[i] == c && !(65 <= t[i] <= 90 || 97 <= t[i]
                    <= 122 || 48 <= t[i] <= 57 || t[i] == 43 || t[i] == 47 || t[i] == 61) && forall|
                    j: int,
                |
                    0 <= j < i ==> 65 <= #[trigger] t[j] <= 90 || 97 <= t[j] <= 122 || 48 <= t[j]
                        <= 57 || t[j] == 43 || t[j] == 47 || t[j] == 61
        }),
{
    let t = encode_utf8(s).filter(|b: u8| b != 10 && b != 13);
    lemma_breaks_filtered(encode_utf8(s));
    let at = lemma_bad_place(t);
    assert forall|i: int| 0 <= i < t.len() implies (symbol_value(#[trigger] t[i]) is Some <==> 65
        <= t[i] <= 90 || 97 <= t[i] <= 122 || 48 <= t[i] <= 57 || t[i] == 43 || t[i] == 47 || t[i]
        == 61) by {}
}

proof fn lemma_value_of_symbol(c: char, v: int)
    requires
        0 <= v < 64,
        c == "ABCDEFGHIJKLMNOPQRSTUVWXYZabcdefghijklmnopqrstuvwxyz0123456789+/"@[v],
    ensures
        '\0' <= c && c <= '\u{7f}',
        symbol_value(c as u8) == Some(v),
        not_line_break(c as u8),
        c as u8 != 61,
{
    lemma_alphabet(v);
    lemma_symbol(v);
}

/// Four symbols of the alphabet are read as the three bytes of the twenty-four bits that they stand
/// for; where the last is padding as the first two of these, and where the last two are as the
/// first. Bytes are not read before a group of four is whole.
pub proof fn law_four_symbols_are_three_bytes(
    p: char,
    q: char,
    r: char,
    s: char,
    i: int,
    j: int,
    k: int,
    l: int,
)
    requires
        0 <= i < 64 && 0 <= j < 64 && 0 <= k < 64 && 0 <= l < 64,
        p == "ABCDEFGHIJKLMNOPQRSTUVWXYZabcdefghijklmnopqrstuvwxyz0123456789+/"@[i],
        q == "ABCDEFGHIJKLMNOPQRSTUVWXYZabcdefghijklmnopqrstuvwxyz0123456789+/"@[j],
        r == "ABCDEFGHIJKLMNOPQRSTUVWXYZabcdefghijklmnopqrstuvwxyz0123456789+/"@[k],
        s == "ABCDEFGHIJKLMNOPQRSTUVWXYZabcdefghijklmnopqrstuvwxyz0123456789+/"@[l],
    ensures
        ({
            let n = i * 262144 + j * 4096 + k * 64 + l;
            &&& decoded(seq![p, q, r, s]) == Ok::<Seq<u8>, u8>(
                seq![(n / 65536) as u8, (n / 256 % 256) as u8, (n % 256) as u8],
            )
            &&& decoded(seq![p, q, r, '=']) == Ok::<Seq<u8>, u8>(
                seq![(n / 65536) as u8, (n / 256 % 256) as u8],
            )
            &&& decoded(seq![p, q, '=', '=']) == Ok::<Seq<u8>, u8>(seq![(n / 65536) as u8])
        }),
        decoded(seq![p, q, r]) == Ok::<Seq<u8>, u8>(Seq::empty()),
        decoded(seq![p, q]) == Ok::<Seq<u8>, u8>(Seq::empty()),
        decoded(seq![p]) == Ok::<Seq<u8>, u8>(Seq::empty()),
        decoded(Seq::empty()) == Ok::<Seq<u8>, u8>(Seq::empty()),
{
    lemma_value_of_symbol(p, i);
    lemma_value_of_symbol(q, j);
    lemma_value_of_symbol(r, k);
    lemma_value_of_symbol(s, l);
    lemma_bits_together(i, j, k, l);
    lemma_three_bytes(p, q, r, s, i, j, k, l);
    lemma_two_bytes(p, q, r, i, j, k);
    lemma_one_byte(p, q, i, j);
    lemma_no_group(seq![p, q, r]);
    lemma_no_group(seq![p, q]);
    lemma_no_group(seq![p]);
    lemma_no_group(Seq::empty());
}

proof fn lemma_bits_together(i: int, j: int, k: int, l: int)
    requires
        0 <= i < 64 && 0 <= j < 64 && 0 <= k < 64 && 0 <= l < 64,
    ensures
        (i * 262144 + j * 4096 + k * 64 + l) / 65536 == i * 4 + j / 16,
        (i * 262144 + j * 4096 + k * 64 + l) / 256 % 256 == (j % 16) * 16 + k / 4,
        (i * 262144 + j * 4096 + k * 64 + l) % 256 == (k % 4) * 64 + l,
{
    let n = i * 262144 + j * 4096 + k * 64 + l;
    assert(n == (i * 4 + j / 16) * 65536 + ((j % 16) * 4096 + k * 64 + l));
    vstd::arithmetic::div_mod::lemma_fundamental_div_mod_converse(
        n,
        65536,
        i * 4 + j / 16,
        (j % 16) * 4096 + k * 64 + l,
    );
    let m = i * 1024 + j * 16 + k / 4;
    assert(n == m * 256 + ((k % 4) * 64 + l));
    vstd::arithmetic::div_mod::lemma_fundamental_div_mod_converse(n, 256, m, (k % 4) * 64 + l);
    assert(m == (i * 4 + j / 16) * 256 + ((j % 16) * 16 + k / 4));
    vstd::arithmetic::div_mod::lemma_fundamental_div_mod_converse(
        m,
        256,
        i * 4 + j / 16,
        (j % 16) * 16 + k / 4,
    );
}

proof fn lemma_three_bytes(p: char, q: char, r: char, s: char, i: int, j: int, k: int, l: int)
    requires
        0 <= i < 64 && 0 <= j < 64 && 0 <= k < 64 && 0 <= l < 64,
        '\0' <= p && p <= '\u{7f}' && not_line_break(p as u8) && symbol_value(p as u8) == Some(i),
        '\0' <= q && q <= '\u{7f}' && not_line_break(q as u8) && symbol_value(q as u8) == Some(j),
        '\0' <= r && r <= '\u{7f}' && not_line_break(r as u8) && symbol_value(r as u8) == Some(k),
        '\0' <= s && s <= '\u{7f}' && not_line_break(s as u8) && symbol_value(s as u8) == Some(l),
        r as u8 != 61,
        s as u8 != 61,
    ensures
        decoded(seq![p, q, r, s]) == Ok::<Seq<u8>, u8>(
            seq![
                (i * 4 + j / 16) as u8,
                ((j % 16) * 16 + k / 4) as u8,
                ((k % 4) * 64 + l) as u8,
            ],
        ),
{
    let t = seq![p, q, r, s];
    lemma_one_group(t);
    assert(decoded_group(ascii_bytes(t)) =~= seq![
        (i * 4 + j / 16) as u8,
        ((j % 16) * 16 + k / 4) as u8,
        ((k % 4) * 64 + l) as u8,
    ]);
}

proof fn lemma_two_bytes(p: char, q: char, r: char, i: int, j: int, k: int)
    requires
        0 <= i < 64 && 0 <= j < 64 && 0 <= k < 64,
        '\0' <= p && p <= '\u{7f}' && not_line_break(p as u8) && symbol_value(p as u8) == Some(i),
        '\0' <= q && q <= '\u{7f}' && not_line_break(q as u8) && symbol_value(q as u8) == Some(j),
        '\0' <= r && r <= '\u{7f}' && not_line_break(r as u8) && symbol_value(r as u8) == Some(k),
        r as u8 != 61,
    ensures
        decoded(seq![p, q, r, '=']) == Ok::<Seq<u8>, u8>(
            seq![(i * 4 + j / 16) as u8, ((j % 16) * 16 + k / 4) as u8],
        ),
{
    let t = seq![p, q, r, '='];
    lemma_one_group(t);
    assert(decoded_group(ascii_bytes(t)) =~= seq![
        (i * 4 + j / 16) as u8,
        ((j % 16) * 16 + k / 4) as u8,
    ]);
}

proof fn lemma_one_byte(p: char, q: char, i: int, j: int)
    requires
        0 <= i < 64 && 0 <= j < 64,
        '\0' <= p && p <= '\u{7f}' && not_line_break(p as u8) && symbol_value(p as u8) == Some(i),
        '\0' <= q && q <= '\u{7f}' && not_line_break(q as u8) && symbol_value(q as u8) == Some(j),
    ensures
        decoded(seq![p, q, '=', '=']) == Ok::<Seq<u8>, u8>(seq![(i * 4 + j / 16) as u8]),
{
    let t = seq![p, q, '=', '='];
    lemma_one_group(t);
    assert(decoded_group(ascii_bytes(t)) =~= seq![(i * 4 + j / 16) as u8]);
}

proof fn lemma_plain_bytes(s: Seq<char>)
    requires
        forall|i: int|
            0 <= i < s.len() ==> '\0' <= #[trigger] s[i] && s[i] <= '\u{7f}' && not_line_break(
                s[i] as u8,
            ),
    ensures
        without_breaks(encode_utf8(s)) == ascii_bytes(s),
{
    assert(is_ascii_chars(s));
    vstd::utf8::is_ascii_chars_encode_utf8(s);
    let t = encode_utf8(s);
    assert(t =~= ascii_bytes(s));
    assert forall|i: int| 0 <= i < t.len() implies not_line_break(#[trigger] t[i]) by {
        assert(t[i] == s[i] as u8);
    }
    lemma_no_breaks(t);
}

proof fn lemma_one_group(s: Seq<char>)
    requires
        s.len() == 4,
        forall|i: int|
            0 <= i < s.len() ==> '\0' <= #[trigger] s[i] && s[i] <= '\u{7f}' && not_line_break(
                s[i] as u8,
            ) && symbol_value(s[i] as u8) is Some,
    ensures
        decoded(s) == Ok::<Seq<u8>, u8>(decoded_group(ascii_bytes(s))),
{
    lemma_plain_bytes(s);
    let t = ascii_bytes(s);
    lemma_first_bad(t);
    assert(t.take(4) =~= t);
    assert(t.skip(4).len() == 0);
    assert(decoded_groups(t.skip(4)) == Ok::<Seq<u8>, u8>(Seq::empty()));
    assert forall|i: int| 0 <= i < t.len() implies symbol_value(#[trigger] t[i]) is Some by {
        assert(t[i] == s[i] as u8);
    }
    assert(decoded_group(t) + Seq::<u8>::empty() =~= decoded_group(t));
}

proof fn lemma_no_group(s: Seq<char>)
    requires
        s.len() < 4,
        forall|i: int|
            0 <= i < s.len() ==> '\0' <= #[trigger] s[i] && s[i] <= '\u{7f}' && not_line_break(
                s[i] as u8,
            ),
    ensures
        decoded(s) == Ok::<Seq<u8>, u8>(Seq::empty()),
{
    lemma_plain_bytes(s);
}

proof fn lemma_groups_follow(a: Seq<u8>, b: Seq<u8>)
    requires
        a.len() % 4 == 0,
    ensures
        decoded_groups(a) is Err ==> decoded_groups(a + b) == decoded_groups(a),
        decoded_groups(a) is Ok && decoded_groups(b) is Err ==> decoded_groups(a + b)
            == decoded_groups(b),
        decoded_groups(a) is Ok && decoded_groups(b) is Ok ==> decoded_groups(a + b) == Ok::<
            Seq<u8>,
            u8,
        >(decoded_groups(a)->Ok_0 + decoded_groups(b)->Ok_0),
    decreases a.len(),
{
    if a.len() == 0 {
        assert(a + b =~= b);
        if decoded_groups(b) is Ok {
            assert(Seq::<u8>::empty() + decoded_groups(b)->Ok_0 =~= decoded_groups(b)->Ok_0);
        }
    } else {
        let all = a + b;
        assert(all.take(4) =~= a.take(4));
        assert(all.skip(4) =~= a.skip(4) + b);
        lemma_groups_follow(a.skip(4), b);
        if decoded_groups(a) is Ok && decoded_groups(b) is Ok {
            let x = decoded_group(a.take(4));
            let y = decoded_groups(a.skip(4))->Ok_0;
            let z = decoded_groups(b)->Ok_0;
            assert(x + (y + z) =~= (x + y) + z);
        }
    }
}

/// Behind whole groups of four, a text is read as it is alone: the bytes of the one come before those
/// of the other, and the first error counts.
pub proof fn law_groups_are_read_one_after_the_other(a: Seq<char>, b: Seq<char>)
    requires
        encode_utf8(a).filter(|x: u8| x != 10 && x != 13).len() % 4 == 0,
    ensures
        decoded(a) is Err ==> decoded(a + b) == decoded(a),
        decoded(a) is Ok && decoded(b) is Err ==> decoded(a + b) == decoded(b),
        decoded(a) is Ok && decoded(b) is Ok ==> decoded(a + b) == Ok::<Seq<u8>, u8>(
            decoded(a)->Ok_0 + decoded(b)->Ok_0,
        ),
{
    lemma_breaks_filtered(encode_utf8(a));
    lemma_encode_concat(a, b);
    lemma_breaks_concat(encode_utf8(a), encode_utf8(b));
    lemma_groups_follow(without_breaks(encode_utf8(a)), without_breaks(encode_utf8(b)));
}

// ----------------------------------------------------------------------------------------------
// What an encrypted text is
// ----------------------------------------------------------------------------------------------

/// An encrypted text stands for the twelve bytes of its nonce and, behind them, all that the cipher
/// made of the text.
pub proof fn law_encrypted_texts_hold_nonce_and_ciphertext(nonce: Seq<u8>, ciphertext: Seq<u8>)
    requires
        nonce.len() == 12,
    ensures
        written_down(nonce, Some(ciphertext)) is Ok,
        decoded(written_down(nonce, Some(ciphertext))->Ok_0) == Ok::<Seq<u8>, u8>(
            nonce + ciphertext,
        ),
        taken_apart(written_down(nonce, Some(ciphertext))->Ok_0) == Ok::<
            (Seq<u8>, Seq<u8>),
            CryptoError,
        >((nonce, ciphertext)),
        written_down(nonce, None) == Err::<Seq<char>, CryptoError>(CryptoError::Encrypt),
{
    let all = nonce + ciphertext;
    law_base64_round_trip(all);
    assert(all.take(12) =~= nonce);
    assert(all.skip(12) =~= ciphertext);
}

/// A text is taken apart behind its first twelve bytes, however it is written in base64. It fails
/// exactly where it is no base64, naming the byte, or has fewer bytes.
pub proof fn law_texts_are_taken_apart_behind_the_nonce(
    s: Seq<char>,
    nonce: Seq<u8>,
    ciphertext: Seq<u8>,
    c: u8,
)
    ensures
        nonce.len() == 12 && decoded(s) == Ok::<Seq<u8>, u8>(nonce + ciphertext) ==> taken_apart(s)
            == Ok::<(Seq<u8>, Seq<u8>), CryptoError>((nonce, ciphertext)),
        decoded(s) is Ok && decoded(s)->Ok_0.len() < 12 ==> taken_apart(s) == Err::<
            (Seq<u8>, Seq<u8>),
            CryptoError,
        >(CryptoError::TooShort),
        decoded(s) == Err::<Seq<u8>, u8>(c) ==> taken_apart(s) == Err::<
            (Seq<u8>, Seq<u8>),
            CryptoError,
        >(CryptoError::InvalidBase64(c)),
{
    let all = nonce + ciphertext;
    if nonce.len() == 12 {
        assert(all.take(12) =~= nonce);
        assert(all.skip(12) =~= ciphertext);
    }
}

/// What the cipher opened is read as the text that its bytes encode, whole and as it is; what it did
/// not open, and what encodes no text, is an error of its own. A chunk that is stored without a key
/// is itself, and one that is stored under a key is what it decrypts to.
pub proof fn law_opened_texts_are_read_whole(
    key: Seq<u8>,
    t: Seq<char>,
    bytes: Seq<u8>,
    stored: Seq<char>,
)
    ensures
        read_out(Some(encode_utf8(t))) == Ok::<Seq<char>, CryptoError>(t),
        !valid_utf8(bytes) ==> read_out(Some(bytes)) == Err::<Seq<char>, CryptoError>(
            CryptoError::NotUtf8,
        ),
        read_out(None) == Err::<Seq<char>, CryptoError>(CryptoError::Decrypt),
        stored_chunk(None, stored) == Ok::<Seq<char>, CryptoError>(stored),
        stored_chunk(Some(key), stored) == decrypted_text(key, stored),
        taken_apart(stored) is Err ==> decrypted_text(key, stored) == Err::<Seq<char>, CryptoError>(
            taken_apart(stored)->Err_0,
        ),
        taken_apart(stored) is Ok ==> decrypted_text(key, stored) == read_out(
            aes256gcm_opened(key, taken_apart(stored)->Ok_0.0, taken_apart(stored)->Ok_0.1),
        ),
{
    vstd::utf8::encode_utf8_valid_utf8(t);
    vstd::utf8::encode_utf8_decode_utf8(t);
}

/// What is told of an error says which it is.
pub proof fn law_errors_are_told_apart(c: u8)
    ensures
        CryptoError::KeyLength.text()
            == "encryption.key must be exactly 32 bytes — delete it to regenerate"@,
        CryptoError::Encrypt.text() == "AES-GCM encrypt failed: aead::Error"@,
        CryptoError::InvalidBase64(c).text() == "Invalid base64 in encrypted chunk"@,
        CryptoError::TooShort.text() == "Encrypted data too short to contain nonce"@,
        CryptoError::Decrypt.text() == "AES-GCM decrypt failed: aead::Error"@,
        CryptoError::NotUtf8.text() == "Decrypted chunk is not valid UTF-8"@,
{
}

} // verus!
