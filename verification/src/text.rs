//! Character-level text: trimming, splitting, searching, and decimal numerals.
//!
//! A string is modelled by the sequence of its characters.
use vstd::prelude::*;
use vstd::utf8::{decode_utf8, encode_utf8, is_ascii_chars, valid_utf8};

verus! {

// ----------------------------------------------------------------------------------------------
// What the standard library knows about characters
// ----------------------------------------------------------------------------------------------

/// Whether a character has the Unicode `White_Space` property: the controls from tab to carriage
/// return, the space, the next line, the no-break space, and the spaces and separators beyond
/// Latin-1.
pub open spec fn white_space(c: char) -> bool {
    ||| '\t' <= c && c <= '\r'
    ||| c == ' '
    ||| c == '\u{85}'
    ||| c == '\u{a0}'
    ||| c == '\u{1680}'
    ||| '\u{2000}' <= c && c <= '\u{200a}'
    ||| c == '\u{2028}'
    ||| c == '\u{2029}'
    ||| c == '\u{202f}'
    ||| c == '\u{205f}'
    ||| c == '\u{3000}'
}

/// `char::is_whitespace`: whether a character has the Unicode `White_Space` property.
pub assume_specification[ char::is_whitespace ](c: char) -> (r: bool)
    ensures
        r == white_space(c),
;

/// Whether a character beyond ASCII is a letter or a number by the Unicode tables.
pub uninterp spec fn unicode_alphanumeric(c: char) -> bool;

/// Whether a character is a letter or a number: among the ASCII characters the letters and the ten
/// digits, and beyond them what the Unicode tables say.
pub open spec fn alphanumeric(c: char) -> bool {
    if c <= '\u{7f}' {
        ('a' <= c && c <= 'z') || ('A' <= c && c <= 'Z') || ('0' <= c && c <= '9')
    } else {
        unicode_alphanumeric(c)
    }
}

/// `char::is_alphanumeric`: whether a character is a letter or a number by the Unicode tables.
pub assume_specification[ char::is_alphanumeric ](c: char) -> (r: bool)
    ensures
        r == alphanumeric(c),
        c > '\u{7f}' ==> r == unicode_alphanumeric(c),
;

/// The lower-case form, by the Unicode tables, of a string that is not all ASCII.
pub uninterp spec fn unicode_lowercase(s: Seq<char>) -> Seq<char>;

/// The lower-case form of an ASCII character.
pub open spec fn ascii_lower(c: char) -> char {
    if 'A' <= c && c <= 'Z' {
        ((c as u32) + 32) as char
    } else {
        c
    }
}

/// The lower-case form of a string: an ASCII string is lowered character by character, and any
/// other as the Unicode tables say.
pub open spec fn lowercase(s: Seq<char>) -> Seq<char> {
    if is_ascii_chars(s) {
        s.map_values(|c: char| ascii_lower(c))
    } else {
        unicode_lowercase(s)
    }
}

/// `str::to_lowercase`: the lower-case form of the whole string by the Unicode tables.
pub assume_specification[ str::to_lowercase ](s: &str) -> (r: String)
    ensures
        r@ == lowercase(s@),
        !is_ascii_chars(s@) ==> r@ == unicode_lowercase(s@),
;

/// `String::push` appends one character.
pub assume_specification[ String::push ](s: &mut String, c: char)
    ensures
        final(s)@ == old(s)@.push(c),
;

/// The error of `String::from_utf8`.
#[verifier::external_type_specification]
#[verifier::external_body]
pub struct ExFromUtf8Error(std::string::FromUtf8Error);

/// `String::from_utf8` takes exactly the valid UTF-8 encodings, and gives the text that they encode.
pub assume_specification[ String::from_utf8 ](bytes: Vec<u8>) -> (r: Result<
    String,
    std::string::FromUtf8Error,
>)
    ensures
        r is Ok <==> valid_utf8(bytes@),
        r matches Ok(s) ==> s@ == decode_utf8(bytes@),
;

// ----------------------------------------------------------------------------------------------
// Strings and vectors of characters
// ----------------------------------------------------------------------------------------------

/// The characters of a string.
pub fn chars_of(s: &str) -> (r: Vec<char>)
    ensures
        r@ == s@,
{
    let mut out: Vec<char> = Vec::new();
    for c in it: s.chars()
        invariant
            it.seq() == s@,
            out@ =~= s@.subrange(0, it.index() as int),
    {
        out.push(c);
    }
    assert(s@.subrange(0, s@.len() as int) =~= s@);
    out
}

/// The string made of the characters from `start` up to, but not including, `end`.
pub fn string_of(chars: &Vec<char>, start: usize, end: usize) -> (r: String)
    requires
        start <= end <= chars@.len(),
    ensures
        r@ == chars@.subrange(start as int, end as int),
{
    let mut out: String = String::new();
    let mut i: usize = start;
    while i < end
        invariant
            start <= i <= end <= chars@.len(),
            out@ =~= chars@.subrange(start as int, i as int),
        decreases end - i,
    {
        out.push(chars[i]);
        i = i + 1;
    }
    out
}

/// Equal encodings come from equal strings.
pub proof fn lemma_encoding_is_injective(a: Seq<char>, b: Seq<char>)
    ensures
        encode_utf8(a) == encode_utf8(b) <==> a == b,
{
    vstd::utf8::encode_utf8_decode_utf8(a);
    vstd::utf8::encode_utf8_decode_utf8(b);
}

/// Whether two strings are the same.
pub fn str_eq(a: &str, b: &str) -> (r: bool)
    ensures
        r == (a@ == b@),
{
    let x: &[u8] = a.as_bytes();
    let y: &[u8] = b.as_bytes();
    proof {
        lemma_encoding_is_injective(a@, b@);
    }
    if x.len() != y.len() {
        return false;
    }
    let n: usize = x.len();
    let mut i: usize = 0;
    while i < n
        invariant
            i <= n,
            n == x@.len(),
            n == y@.len(),
            forall|k: int| 0 <= k < i ==> x@[k] == y@[k],
            x@ == y@ <==> a@ == b@,
        decreases n - i,
    {
        if x[i] != y[i] {
            return false;
        }
        i = i + 1;
    }
    assert(x@ =~= y@);
    true
}

// ----------------------------------------------------------------------------------------------
// Trimming
// ----------------------------------------------------------------------------------------------

/// The text without its leading whitespace.
pub open spec fn trim_start(s: Seq<char>) -> Seq<char>
    decreases s.len(),
{
    if s.len() > 0 && white_space(s.first()) {
        trim_start(s.drop_first())
    } else {
        s
    }
}

/// The text without its trailing whitespace.
pub open spec fn trim_end(s: Seq<char>) -> Seq<char>
    decreases s.len(),
{
    if s.len() > 0 && white_space(s.last()) {
        trim_end(s.drop_last())
    } else {
        s
    }
}

/// The text without the whitespace around it.
pub open spec fn trimmed(s: Seq<char>) -> Seq<char> {
    trim_end(trim_start(s))
}

/// Whether a text holds nothing but whitespace.
pub open spec fn blank(s: Seq<char>) -> bool {
    forall|i: int| 0 <= i < s.len() ==> white_space(#[trigger] s[i])
}

/// Removes the whitespace around a text.
pub fn trim(s: &str) -> (r: String)
    ensures
        r@ == trimmed(s@),
{
    let chars: Vec<char> = chars_of(s);
    let n: usize = chars.len();
    let mut start: usize = 0;
    assert(s@.subrange(0, n as int) =~= s@);
    while start < n && chars[start].is_whitespace()
        invariant
            start <= n,
            n == chars@.len(),
            chars@ == s@,
            trim_start(s@) == trim_start(s@.subrange(start as int, n as int)),
        decreases n - start,
    {
        assert(s@.subrange(start as int, n as int).drop_first() =~= s@.subrange(
            start + 1,
            n as int,
        ));
        start = start + 1;
    }
    let mut end: usize = n;
    while start < end && chars[end - 1].is_whitespace()
        invariant
            start <= end <= n,
            n == chars@.len(),
            chars@ == s@,
            trimmed(s@) == trim_end(s@.subrange(start as int, end as int)),
        decreases end - start,
    {
        assert(s@.subrange(start as int, end as int).drop_last() =~= s@.subrange(
            start as int,
            end - 1,
        ));
        end = end - 1;
    }
    string_of(&chars, start, end)
}

/// Whether a text holds nothing but whitespace.
pub fn is_blank(s: &str) -> (r: bool)
    ensures
        r == blank(s@),
{
    let chars: Vec<char> = chars_of(s);
    let n: usize = chars.len();
    let mut i: usize = 0;
    while i < n
        invariant
            i <= n,
            n == chars@.len(),
            chars@ == s@,
            forall|k: int| 0 <= k < i ==> white_space(#[trigger] s@[k]),
        decreases n - i,
    {
        if !chars[i].is_whitespace() {
            return false;
        }
        i = i + 1;
    }
    true
}

/// Trimming leaves nothing exactly where there was nothing but whitespace.
pub proof fn law_blank_texts_trim_to_nothing(s: Seq<char>)
    ensures
        trimmed(s).len() == 0 <==> blank(s),
{
    lemma_trim_start_empty(s);
    lemma_trim_end_empty(trim_start(s));
    if trim_start(s).len() > 0 {
        lemma_trim_start_head(s);
        assert(!blank(trim_start(s)));
    }
}

proof fn lemma_trim_start_empty(s: Seq<char>)
    ensures
        trim_start(s).len() == 0 <==> blank(s),
    decreases s.len(),
{
    if s.len() > 0 && white_space(s.first()) {
        lemma_trim_start_empty(s.drop_first());
        if blank(s.drop_first()) {
            assert forall|i: int| 0 <= i < s.len() implies white_space(#[trigger] s[i]) by {
                if i > 0 {
                    assert(s[i] == s.drop_first()[i - 1]);
                }
            }
        }
        if blank(s) {
            assert forall|i: int| 0 <= i < s.drop_first().len() implies white_space(
                #[trigger] s.drop_first()[i],
            ) by {
                assert(s.drop_first()[i] == s[i + 1]);
            }
        }
    }
}

proof fn lemma_trim_end_empty(s: Seq<char>)
    ensures
        trim_end(s).len() == 0 <==> blank(s),
    decreases s.len(),
{
    if s.len() > 0 && white_space(s.last()) {
        lemma_trim_end_empty(s.drop_last());
        if blank(s.drop_last()) {
            assert forall|i: int| 0 <= i < s.len() implies white_space(#[trigger] s[i]) by {
                if i < s.len() - 1 {
                    assert(s[i] == s.drop_last()[i]);
                }
            }
        }
        if blank(s) {
            assert forall|i: int| 0 <= i < s.drop_last().len() implies white_space(
                #[trigger] s.drop_last()[i],
            ) by {
                assert(s.drop_last()[i] == s[i]);
            }
        }
    }
}

proof fn lemma_trim_start_head(s: Seq<char>)
    ensures
        trim_start(s).len() > 0 ==> !white_space(trim_start(s)[0]),
    decreases s.len(),
{
    if s.len() > 0 && white_space(s.first()) {
        lemma_trim_start_head(s.drop_first());
    }
}

/// A text without the copies of one character at its end.
pub open spec fn trimmed_end_of(s: Seq<char>, c: char) -> Seq<char>
    decreases s.len(),
{
    if s.len() > 0 && s.last() == c {
        trimmed_end_of(s.drop_last(), c)
    } else {
        s
    }
}

/// Removes every copy of one character from the end of a text.
pub fn trim_end_of(s: &str, c: char) -> (r: String)
    ensures
        r@ == trimmed_end_of(s@, c),
{
    let chars: Vec<char> = chars_of(s);
    let n: usize = chars.len();
    let mut end: usize = n;
    assert(s@.subrange(0, n as int) =~= s@);
    while 0 < end && chars[end - 1] == c
        invariant
            end <= n,
            n == chars@.len(),
            chars@ == s@,
            trimmed_end_of(s@, c) == trimmed_end_of(s@.subrange(0, end as int), c),
        decreases end,
    {
        assert(s@.subrange(0, end as int).drop_last() =~= s@.subrange(0, end - 1));
        end = end - 1;
    }
    string_of(&chars, 0, end)
}

// ----------------------------------------------------------------------------------------------
// Splitting into runs of characters
// ----------------------------------------------------------------------------------------------

/// The two kinds of character that text is split into runs of.
#[derive(Clone, Copy, PartialEq, Eq, Structural, Debug)]
pub enum CharClass {
    Alphanumeric,
    NonWhitespace,
}

impl CharClass {
    /// Whether a character belongs to the class.
    pub open spec fn holds(self, c: char) -> bool {
        match self {
            CharClass::Alphanumeric => alphanumeric(c),
            CharClass::NonWhitespace => !white_space(c),
        }
    }

    /// Whether a character belongs to the class.
    pub fn test(self, c: char) -> (r: bool)
        ensures
            r == self.holds(c),
    {
        match self {
            CharClass::Alphanumeric => c.is_alphanumeric(),
            CharClass::NonWhitespace => !c.is_whitespace(),
        }
    }
}

/// How many characters at the front of a text belong to the class.
pub open spec fn prefix_run(s: Seq<char>, class: CharClass) -> nat
    decreases s.len(),
{
    if s.len() > 0 && class.holds(s.first()) {
        1 + prefix_run(s.drop_first(), class)
    } else {
        0
    }
}

/// The front run is no longer than the text, and not empty where its first character belongs to
/// the class.
pub proof fn lemma_prefix_run(s: Seq<char>, class: CharClass)
    ensures
        prefix_run(s, class) <= s.len(),
        s.len() > 0 && class.holds(s.first()) ==> prefix_run(s, class) > 0,
        forall|i: int| 0 <= i < prefix_run(s, class) ==> class.holds(#[trigger] s[i]),
        prefix_run(s, class) < s.len() ==> !class.holds(s[prefix_run(s, class) as int]),
    decreases s.len(),
{
    if s.len() > 0 && class.holds(s.first()) {
        let rest = s.drop_first();
        lemma_prefix_run(rest, class);
        assert forall|i: int| 0 <= i < prefix_run(s, class) implies class.holds(#[trigger] s[i]) by {
            if i > 0 {
                assert(s[i] == rest[i - 1]);
            }
        }
        if prefix_run(s, class) < s.len() {
            assert(s[prefix_run(s, class) as int] == rest[prefix_run(rest, class) as int]);
        }
    }
}

/// The longest possible runs of characters of the class, in the order of the text.
pub open spec fn runs(s: Seq<char>, class: CharClass) -> Seq<Seq<char>>
    decreases s.len(),
{
    if s.len() == 0 {
        Seq::empty()
    } else if !class.holds(s.first()) {
        runs(s.drop_first(), class)
    } else {
        proof {
            lemma_prefix_run(s, class);
        }
        let n = prefix_run(s, class) as int;
        seq![s.take(n)] + runs(s.skip(n), class)
    }
}

/// The views of a list of strings.
pub open spec fn texts(v: Seq<String>) -> Seq<Seq<char>> {
    v.map_values(|s: String| s@)
}

/// Splits a text into its longest runs of characters of the class.
pub fn split_runs(s: &str, class: CharClass) -> (r: Vec<String>)
    ensures
        texts(r@) == runs(s@, class),
{
    let chars: Vec<char> = chars_of(s);
    let n: usize = chars.len();
    let mut out: Vec<String> = Vec::new();
    let mut i: usize = 0;
    assert(s@.skip(0) =~= s@);
    assert(texts(out@) + runs(s@, class) =~= runs(s@, class));
    while i < n
        invariant
            i <= n,
            n == chars@.len(),
            chars@ == s@,
            texts(out@) + runs(s@.skip(i as int), class) =~= runs(s@, class),
        decreases n - i,
    {
        let ghost here = s@.skip(i as int);
        assert(here.first() == chars@[i as int]);
        if !class.test(chars[i]) {
            assert(here.drop_first() =~= s@.skip(i + 1));
            i = i + 1;
        } else {
            let mut j: usize = i + 1;
            assert(here.drop_first() =~= s@.skip(i + 1));
            while j < n && class.test(chars[j])
                invariant
                    i < j <= n,
                    n == chars@.len(),
                    chars@ == s@,
                    here == s@.skip(i as int),
                    prefix_run(here, class) == (j - i) + prefix_run(s@.skip(j as int), class),
                decreases n - j,
            {
                assert(s@.skip(j as int).first() == chars@[j as int]);
                assert(s@.skip(j as int).drop_first() =~= s@.skip(j + 1));
                j = j + 1;
            }
            if j < n {
                assert(s@.skip(j as int).first() == chars@[j as int]);
            }
            assert(prefix_run(here, class) == j - i);
            let word: String = string_of(&chars, i, j);
            assert(here.take(j - i) =~= s@.subrange(i as int, j as int));
            assert(here.skip(j - i) =~= s@.skip(j as int));
            let ghost before = texts(out@);
            out.push(word);
            assert(texts(out@) =~= before.push(word@));
            i = j;
        }
    }
    assert(s@.skip(n as int).len() == 0);
    out
}

// ----------------------------------------------------------------------------------------------
// Searching, joining, replacing
// ----------------------------------------------------------------------------------------------

/// Whether the needle stands in the text at the given place.
pub open spec fn occurs_at(text: Seq<char>, needle: Seq<char>, at: int) -> bool {
    0 <= at && at + needle.len() <= text.len() && text.subrange(at, at + needle.len()) == needle
}

/// Whether the needle stands somewhere in the text.
pub open spec fn has_text(text: Seq<char>, needle: Seq<char>) -> bool {
    exists|at: int| occurs_at(text, needle, at)
}

/// Whether the needle stands somewhere in the text.
pub fn contains(text: &str, needle: &str) -> (r: bool)
    ensures
        r == has_text(text@, needle@),
{
    let t: Vec<char> = chars_of(text);
    let p: Vec<char> = chars_of(needle);
    let n: usize = t.len();
    let m: usize = p.len();
    if m > n {
        return false;
    }
    let mut at: usize = 0;
    while at <= n - m
        invariant
            m <= n,
            at <= n - m + 1,
            n == t@.len(),
            m == p@.len(),
            t@ == text@,
            p@ == needle@,
            forall|k: int| 0 <= k < at ==> !occurs_at(text@, needle@, k),
        decreases n - m + 1 - at,
    {
        let mut i: usize = 0;
        while i < m && t[at + i] == p[i]
            invariant
                i <= m,
                at + m <= n,
                n == t@.len(),
                m == p@.len(),
                forall|k: int| 0 <= k < i ==> t@[at + k] == p@[k],
            decreases m - i,
        {
            i = i + 1;
        }
        if i == m {
            assert(text@.subrange(at as int, at + m) =~= needle@);
            assert(occurs_at(text@, needle@, at as int));
            return true;
        }
        assert(text@.subrange(at as int, at + m)[i as int] != needle@[i as int]);
        if at == n - m {
            assert forall|k: int| !occurs_at(text@, needle@, k) by {
                if 0 <= k && k + m <= n && k < at {
                    assert(!occurs_at(text@, needle@, k));
                }
            }
            return false;
        }
        at = at + 1;
    }
    false
}

/// The pieces with the separator between each two of them.
pub open spec fn joined(pieces: Seq<Seq<char>>, sep: Seq<char>) -> Seq<char>
    decreases pieces.len(),
{
    if pieces.len() == 0 {
        Seq::empty()
    } else if pieces.len() == 1 {
        pieces[0]
    } else {
        joined(pieces.drop_last(), sep) + sep + pieces.last()
    }
}

/// Joins the pieces from `start` up to, but not including, `end`, with the separator between each
/// two of them.
pub fn join_range(pieces: &Vec<String>, start: usize, end: usize, sep: &str) -> (r: String)
    requires
        start <= end <= pieces@.len(),
    ensures
        r@ == joined(texts(pieces@).subrange(start as int, end as int), sep@),
{
    let mut out: String = String::new();
    let mut i: usize = start;
    while i < end
        invariant
            start <= i <= end <= pieces@.len(),
            out@ == joined(texts(pieces@).subrange(start as int, i as int), sep@),
        decreases end - i,
    {
        let ghost done = texts(pieces@).subrange(start as int, i as int);
        let ghost next = texts(pieces@).subrange(start as int, i + 1);
        assert(next.drop_last() =~= done);
        assert(next.last() == pieces@[i as int]@);
        if i > start {
            out.append(sep);
        } else {
            assert(Seq::<char>::empty() + pieces@[i as int]@ =~= pieces@[i as int]@);
        }
        out.append(pieces[i].as_str());
        i = i + 1;
    }
    out
}

/// Joins all the pieces with the separator between each two of them.
pub fn join(pieces: &Vec<String>, sep: &str) -> (r: String)
    ensures
        r@ == joined(texts(pieces@), sep@),
{
    assert(texts(pieces@).subrange(0, pieces@.len() as int) =~= texts(pieces@));
    join_range(pieces, 0, pieces.len(), sep)
}

/// The text with each copy of one character replaced by another text.
pub open spec fn replaced(s: Seq<char>, c: char, by: Seq<char>) -> Seq<char>
    decreases s.len(),
{
    if s.len() == 0 {
        Seq::empty()
    } else {
        let head = if s.last() == c {
            by
        } else {
            seq![s.last()]
        };
        replaced(s.drop_last(), c, by) + head
    }
}

/// Replaces each copy of one character by another text.
pub fn replace_char(s: &str, c: char, by: &str) -> (r: String)
    ensures
        r@ == replaced(s@, c, by@),
{
    let chars: Vec<char> = chars_of(s);
    let n: usize = chars.len();
    let mut out: String = String::new();
    let mut i: usize = 0;
    while i < n
        invariant
            i <= n,
            n == chars@.len(),
            chars@ == s@,
            out@ == replaced(s@.subrange(0, i as int), c, by@),
        decreases n - i,
    {
        let ghost before = out@;
        assert(s@.subrange(0, i + 1).drop_last() =~= s@.subrange(0, i as int));
        if chars[i] == c {
            out.append(by);
        } else {
            out.push(chars[i]);
            assert(out@ =~= before + seq![chars@[i as int]]);
        }
        i = i + 1;
    }
    assert(s@.subrange(0, n as int) =~= s@);
    out
}

/// Two texts one after the other.
pub fn concat2(a: &str, b: &str) -> (r: String)
    ensures
        r@ == a@ + b@,
{
    let mut out: String = a.to_owned();
    out.append(b);
    out
}

/// Three texts one after the other.
pub fn concat3(a: &str, b: &str, c: &str) -> (r: String)
    ensures
        r@ == a@ + b@ + c@,
{
    let mut out: String = a.to_owned();
    out.append(b);
    out.append(c);
    out
}

// ----------------------------------------------------------------------------------------------
// Decimal numerals
// ----------------------------------------------------------------------------------------------

/// The numeral of a digit.
pub open spec fn digit_char(d: nat) -> char {
    ((48 + d) as u8) as char
}

/// The decimal numeral of a number, without leading zeros.
pub open spec fn numeral(n: nat) -> Seq<char>
    decreases n,
{
    if n < 10 {
        seq![digit_char(n)]
    } else {
        numeral(n / 10).push(digit_char(n % 10))
    }
}

/// Writes a number in decimal.
pub fn decimal(n: u64) -> (r: String)
    ensures
        r@ == numeral(n as nat),
    decreases n,
{
    let d: u8 = (n % 10) as u8;
    let c: char = (48u8 + d) as char;
    if n < 10 {
        let mut out: String = String::new();
        out.push(c);
        assert(out@ =~= seq![c]);
        out
    } else {
        let mut out: String = decimal(n / 10);
        out.push(c);
        out
    }
}

/// Whether a character is one of the ten digits.
pub open spec fn is_digit(c: char) -> bool {
    '0' <= c && c <= '9'
}

/// Whether a text is one or more digits.
pub open spec fn all_digits(s: Seq<char>) -> bool {
    s.len() > 0 && forall|i: int| 0 <= i < s.len() ==> is_digit(#[trigger] s[i])
}

/// The number that a row of digits stands for.
pub open spec fn digits_value(s: Seq<char>) -> nat
    decreases s.len(),
{
    if s.len() == 0 {
        0
    } else {
        digits_value(s.drop_last()) * 10 + (s.last() as nat - 48) as nat
    }
}

/// The number that a text stands for: digits, with a plus sign in front at most.
pub open spec fn parsed_number(s: Seq<char>) -> Option<nat> {
    let body = if s.len() > 0 && s[0] == '+' {
        s.skip(1)
    } else {
        s
    };
    if all_digits(body) {
        Some(digits_value(body))
    } else {
        None
    }
}

proof fn lemma_digits_grow(s: Seq<char>, n: int)
    requires
        0 <= n <= s.len(),
        forall|i: int| 0 <= i < s.len() ==> is_digit(#[trigger] s[i]),
    ensures
        digits_value(s.take(n)) <= digits_value(s),
    decreases s.len() - n,
{
    if n < s.len() {
        lemma_digits_grow(s, n + 1);
        assert(s.take(n + 1).drop_last() =~= s.take(n));
        assert(is_digit(s.take(n + 1).last()));
    } else {
        assert(s.take(n) =~= s);
    }
}

/// Reads a number that fits a `usize`: digits, with a plus sign in front at most.
pub fn parse_usize(s: &str) -> (r: Option<usize>)
    ensures
        r matches Some(n) ==> parsed_number(s@) == Some(n as nat),
        r is None ==> (parsed_number(s@) matches Some(n) ==> n > usize::MAX),
{
    let chars: Vec<char> = chars_of(s);
    let n: usize = chars.len();
    let start: usize = if n > 0 && chars[0] == '+' {
        1
    } else {
        0
    };
    let ghost body = s@.skip(start as int);
    assert(start == 0 ==> body =~= s@);
    if start == n {
        return None;
    }
    let mut value: usize = 0;
    let mut i: usize = start;
    assert(body.take(0) =~= Seq::<char>::empty());
    while i < n
        invariant
            start <= i <= n,
            n == chars@.len(),
            chars@ == s@,
            body == s@.skip(start as int),
            body.len() == n - start,
            forall|k: int| 0 <= k < i - start ==> is_digit(#[trigger] body[k]),
            value == digits_value(body.take(i - start)),
            parsed_number(s@) is Some ==> all_digits(body) && parsed_number(s@) == Some(
                digits_value(body),
            ),
        decreases n - i,
    {
        let c: char = chars[i];
        assert(body[i - start] == c);
        if c < '0' || c > '9' {
            assert(!all_digits(body));
            return None;
        }
        let d: usize = (c as u32 - 48) as usize;
        assert(body.take(i + 1 - start).drop_last() =~= body.take(i - start));
        assert(body.take(i + 1 - start).last() == c);
        proof {
            if all_digits(body) {
                lemma_digits_grow(body, i + 1 - start);
            }
        }
        if value > usize::MAX / 10 || value * 10 > usize::MAX - d {
            return None;
        }
        value = value * 10 + d;
        i = i + 1;
    }
    assert(body.take(n - start) =~= body);
    Some(value)
}

/// The numeral of a number is read back as that number.
pub proof fn law_numerals_read_back(n: nat)
    ensures
        parsed_number(numeral(n)) == Some(n),
{
    lemma_numeral(n);
    assert(is_digit(numeral(n)[0]));
}

/// A numeral is made of digits, whose value is the number.
pub proof fn lemma_numeral(n: nat)
    ensures
        all_digits(numeral(n)),
        digits_value(numeral(n)) == n,
    decreases n,
{
    let s = numeral(n);
    assert(s.last() == digit_char(n % 10));
    if n < 10 {
        assert(s.drop_last() =~= Seq::<char>::empty());
        assert(digits_value(s.drop_last()) == 0);
    } else {
        lemma_numeral(n / 10);
        assert(s.drop_last() =~= numeral(n / 10));
        assert forall|i: int| 0 <= i < s.len() implies is_digit(#[trigger] s[i]) by {
            if i < s.len() - 1 {
                assert(s[i] == numeral(n / 10)[i]);
            }
        }
    }
}

// ----------------------------------------------------------------------------------------------
// What holds of trimming
// ----------------------------------------------------------------------------------------------

/// Trimming takes away the whitespace at either end and nothing else: what is left is the part of
/// the text between two places, with nothing but whitespace before the one and from the other on,
/// and it neither begins nor ends with whitespace.
pub proof fn law_trimming_takes_the_whitespace_around(s: Seq<char>) -> (cut: (int, int))
    ensures
        0 <= cut.0 <= cut.1 <= s.len(),
        trimmed(s) == s.subrange(cut.0, cut.1),
        forall|i: int| 0 <= i < cut.0 ==> white_space(#[trigger] s[i]),
        forall|i: int| cut.1 <= i < s.len() ==> white_space(#[trigger] s[i]),
        cut.0 < cut.1 ==> !white_space(s[cut.0]) && !white_space(s[cut.1 - 1]),
{
    let start = lemma_trim_start_cut(s);
    let rest = s.skip(start);
    let end = lemma_trim_end_cut(rest);
    assert(trimmed(s) =~= s.subrange(start, start + end));
    assert forall|i: int| start + end <= i < s.len() implies white_space(#[trigger] s[i]) by {
        assert(s[i] == rest[i - start]);
    }
    if 0 < end {
        assert(s[start] == rest[0]);
        assert(s[start + end - 1] == rest[end - 1]);
    }
    (start, start + end)
}

proof fn lemma_trim_start_cut(s: Seq<char>) -> (start: int)
    ensures
        0 <= start <= s.len(),
        trim_start(s) == s.skip(start),
        forall|i: int| 0 <= i < start ==> white_space(#[trigger] s[i]),
        start < s.len() ==> !white_space(s[start]),
    decreases s.len(),
{
    if s.len() > 0 && white_space(s.first()) {
        let rest = s.drop_first();
        let k = lemma_trim_start_cut(rest);
        assert(rest.skip(k) =~= s.skip(k + 1));
        assert forall|i: int| 0 <= i < k + 1 implies white_space(#[trigger] s[i]) by {
            if i > 0 {
                assert(s[i] == rest[i - 1]);
            }
        }
        if k + 1 < s.len() {
            assert(s[k + 1] == rest[k]);
        }
        k + 1
    } else {
        assert(s.skip(0) =~= s);
        0
    }
}

proof fn lemma_trim_end_cut(s: Seq<char>) -> (end: int)
    ensures
        0 <= end <= s.len(),
        trim_end(s) == s.take(end),
        forall|i: int| end <= i < s.len() ==> white_space(#[trigger] s[i]),
        0 < end ==> !white_space(s[end - 1]),
    decreases s.len(),
{
    if s.len() > 0 && white_space(s.last()) {
        let rest = s.drop_last();
        let k = lemma_trim_end_cut(rest);
        assert(rest.take(k) =~= s.take(k));
        assert forall|i: int| k <= i < s.len() implies white_space(#[trigger] s[i]) by {
            if i < s.len() - 1 {
                assert(s[i] == rest[i]);
            }
        }
        if 0 < k {
            assert(s[k - 1] == rest[k - 1]);
        }
        k
    } else {
        assert(s.take(s.len() as int) =~= s);
        s.len() as int
    }
}

/// Trimming one character off the end takes away copies of it and nothing else, and leaves none
/// at the end.
pub proof fn law_trimming_an_end_takes_every_copy(s: Seq<char>, c: char) -> (end: int)
    ensures
        0 <= end <= s.len(),
        trimmed_end_of(s, c) == s.subrange(0, end),
        forall|i: int| end <= i < s.len() ==> #[trigger] s[i] == c,
        0 < end ==> s[end - 1] != c,
    decreases s.len(),
{
    if s.len() > 0 && s.last() == c {
        let rest = s.drop_last();
        let k = law_trimming_an_end_takes_every_copy(rest, c);
        assert(rest.subrange(0, k) =~= s.subrange(0, k));
        assert forall|i: int| k <= i < s.len() implies #[trigger] s[i] == c by {
            if i < s.len() - 1 {
                assert(s[i] == rest[i]);
            }
        }
        if 0 < k {
            assert(s[k - 1] == rest[k - 1]);
        }
        k
    } else {
        assert(s.subrange(0, s.len() as int) =~= s);
        s.len() as int
    }
}

// ----------------------------------------------------------------------------------------------
// What holds of splitting
// ----------------------------------------------------------------------------------------------

/// Where the runs of a class stand in a text.
proof fn lemma_run_places(s: Seq<char>, class: CharClass) -> (at: Seq<(int, int)>)
    ensures
        at.len() == runs(s, class).len(),
        forall|i: int|
            #![trigger at[i]]
            0 <= i < at.len() ==> {
                &&& 0 <= at[i].0 < at[i].1 <= s.len()
                &&& runs(s, class)[i] == s.subrange(at[i].0, at[i].1)
                &&& at[i].0 == 0 || !class.holds(s[at[i].0 - 1])
                &&& at[i].1 == s.len() || !class.holds(s[at[i].1])
            },
        forall|i: int, k: int|
            #![trigger at[i], s[k]]
            0 <= i < at.len() && at[i].0 <= k < at[i].1 ==> class.holds(s[k]),
        forall|i: int, j: int| 0 <= i < j < at.len() ==> (#[trigger] at[i]).1 <= (#[trigger] at[j]).0,
        forall|k: int|
            0 <= k < s.len() && class.holds(#[trigger] s[k]) ==> exists|i: int|
                0 <= i < at.len() && (#[trigger] at[i]).0 <= k < at[i].1,
    decreases s.len(),
{
    if s.len() == 0 {
        Seq::empty()
    } else {
        lemma_prefix_run(s, class);
        let first = class.holds(s.first());
        let n = if first {
            prefix_run(s, class) as int
        } else {
            1
        };
        let rest = s.skip(n);
        assert(!first ==> rest =~= s.drop_first());
        let inner = lemma_run_places(rest, class);
        let moved = inner.map_values(|p: (int, int)| (p.0 + n, p.1 + n));
        let at = if first {
            seq![(0int, n)] + moved
        } else {
            moved
        };
        let d: int = if first {
            1
        } else {
            0
        };
        assert(at.len() == inner.len() + d);
        assert forall|k: int| n <= k < s.len() implies #[trigger] s[k] == rest[k - n] by {}
        assert forall|i: int| d <= i < at.len() implies (#[trigger] at[i]) == (
            inner[i - d].0 + n,
            inner[i - d].1 + n,
        ) && runs(s, class)[i] == runs(rest, class)[i - d] by {}
        assert forall|i: int| #![trigger at[i]] 0 <= i < at.len() implies {
            &&& 0 <= at[i].0 < at[i].1 <= s.len()
            &&& runs(s, class)[i] == s.subrange(at[i].0, at[i].1)
            &&& at[i].0 == 0 || !class.holds(s[at[i].0 - 1])
            &&& at[i].1 == s.len() || !class.holds(s[at[i].1])
        } by {
            if i < d {
                assert(s.take(n) =~= s.subrange(0, n));
            } else {
                let p = inner[i - d];
                assert(rest.subrange(p.0, p.1) =~= s.subrange(p.0 + n, p.1 + n));
                assert(class.holds(rest[p.0]));
                assert(s[p.0 + n] == rest[p.0]);
                if p.0 > 0 {
                    assert(s[p.0 + n - 1] == rest[p.0 - 1]);
                } else {
                    assert(!first);
                    assert(s[0] == s.first());
                }
            }
        }
        assert forall|i: int, k: int|
            #![trigger at[i], s[k]]
            0 <= i < at.len() && at[i].0 <= k < at[i].1 implies class.holds(s[k]) by {
            if i >= d {
                let p = inner[i - d];
                assert(s[k] == rest[k - n]);
            }
        }
        assert forall|k: int| 0 <= k < s.len() && class.holds(#[trigger] s[k]) implies exists|i: int|
            0 <= i < at.len() && (#[trigger] at[i]).0 <= k < at[i].1 by {
            if k < n {
                assert(first);
                assert(at[0].0 <= k < at[0].1);
            } else {
                assert(class.holds(rest[k - n]));
                let i = choose|i: int|
                    0 <= i < inner.len() && (#[trigger] inner[i]).0 <= k - n < inner[i].1;
                assert(at[i + d].0 <= k < at[i + d].1);
            }
        }
        at
    }
}

proof fn lemma_filter_keeps_all(s: Seq<char>, keep: spec_fn(char) -> bool)
    requires
        forall|i: int| 0 <= i < s.len() ==> keep(#[trigger] s[i]),
    ensures
        s.filter(keep) == s,
    decreases s.len(),
{
    reveal(Seq::filter);
    if s.len() > 0 {
        let rest = s.drop_last();
        assert forall|i: int| 0 <= i < rest.len() implies keep(#[trigger] rest[i]) by {
            assert(rest[i] == s[i]);
        }
        assert(keep(s[s.len() - 1]));
        lemma_filter_keeps_all(rest, keep);
        assert(rest.push(s.last()) =~= s);
    }
}

/// The runs of a class, put together, are the characters of the class.
proof fn lemma_runs_put_together(s: Seq<char>, class: CharClass)
    ensures
        runs(s, class).flatten() == s.filter(|c: char| class.holds(c)),
    decreases s.len(),
{
    let keep = |c: char| class.holds(c);
    reveal(Seq::filter);
    if s.len() > 0 {
        lemma_prefix_run(s, class);
        if class.holds(s.first()) {
            let n = prefix_run(s, class) as int;
            let head = s.take(n);
            let rest = s.skip(n);
            assert(s =~= head + rest);
            Seq::filter_distributes_over_add(head, rest, keep);
            assert forall|i: int| 0 <= i < head.len() implies keep(#[trigger] head[i]) by {
                assert(head[i] == s[i]);
            }
            lemma_filter_keeps_all(head, keep);
            lemma_runs_put_together(rest, class);
            let all = runs(s, class);
            assert(all.first() == head);
            assert(all.drop_first() =~= runs(rest, class));
            assert(all.flatten() == all.first() + all.drop_first().flatten());
        } else {
            let head = seq![s.first()];
            let rest = s.drop_first();
            assert(s =~= head + rest);
            Seq::filter_distributes_over_add(head, rest, keep);
            assert(head.drop_last() =~= Seq::<char>::empty());
            assert(head.drop_last().filter(keep) =~= Seq::<char>::empty());
            assert(head.last() == s.first());
            assert(head.filter(keep) =~= Seq::<char>::empty());
            lemma_runs_put_together(rest, class);
            assert(Seq::<char>::empty() + rest.filter(keep) =~= rest.filter(keep));
        }
    }
}

/// Splitting at whitespace loses nothing but whitespace: the words, put together, are all the
/// other characters of the text in their order. Each word stands in the text between two places,
/// behind whitespace or the start of the text and in front of whitespace or its end, and has no
/// whitespace in it.
pub proof fn law_whitespace_splits_words(s: Seq<char>) -> (at: Seq<(int, int)>)
    ensures
        runs(s, CharClass::NonWhitespace).flatten() == s.filter(|c: char| !white_space(c)),
        at.len() == runs(s, CharClass::NonWhitespace).len(),
        forall|i: int|
            #![trigger at[i]]
            0 <= i < at.len() ==> {
                &&& 0 <= at[i].0 < at[i].1 <= s.len()
                &&& runs(s, CharClass::NonWhitespace)[i] == s.subrange(at[i].0, at[i].1)
                &&& at[i].0 == 0 || white_space(s[at[i].0 - 1])
                &&& at[i].1 == s.len() || white_space(s[at[i].1])
            },
        forall|i: int, k: int|
            #![trigger at[i], s[k]]
            0 <= i < at.len() && at[i].0 <= k < at[i].1 ==> !white_space(s[k]),
        forall|i: int, j: int| 0 <= i < j < at.len() ==> (#[trigger] at[i]).1 <= (#[trigger] at[j]).0,
        forall|k: int|
            0 <= k < s.len() && !white_space(#[trigger] s[k]) ==> exists|i: int|
                0 <= i < at.len() && (#[trigger] at[i]).0 <= k < at[i].1,
{
    let class = CharClass::NonWhitespace;
    lemma_runs_put_together(s, class);
    assert((|c: char| class.holds(c)) =~= (|c: char| !white_space(c)));
    lemma_run_places(s, class)
}

/// Splitting into runs of letters and numbers loses nothing but other characters: the words, put
/// together, are all the letters and numbers of the text in their order. Each word stands in the
/// text between two places, behind another character or the start of the text and in front of
/// another character or its end, and is made of letters and numbers alone.
pub proof fn law_letters_and_numbers_make_words(s: Seq<char>) -> (at: Seq<(int, int)>)
    ensures
        runs(s, CharClass::Alphanumeric).flatten() == s.filter(|c: char| alphanumeric(c)),
        at.len() == runs(s, CharClass::Alphanumeric).len(),
        forall|i: int|
            #![trigger at[i]]
            0 <= i < at.len() ==> {
                &&& 0 <= at[i].0 < at[i].1 <= s.len()
                &&& runs(s, CharClass::Alphanumeric)[i] == s.subrange(at[i].0, at[i].1)
                &&& at[i].0 == 0 || !alphanumeric(s[at[i].0 - 1])
                &&& at[i].1 == s.len() || !alphanumeric(s[at[i].1])
            },
        forall|i: int, k: int|
            #![trigger at[i], s[k]]
            0 <= i < at.len() && at[i].0 <= k < at[i].1 ==> alphanumeric(s[k]),
        forall|i: int, j: int| 0 <= i < j < at.len() ==> (#[trigger] at[i]).1 <= (#[trigger] at[j]).0,
        forall|k: int|
            0 <= k < s.len() && alphanumeric(#[trigger] s[k]) ==> exists|i: int|
                0 <= i < at.len() && (#[trigger] at[i]).0 <= k < at[i].1,
{
    let class = CharClass::Alphanumeric;
    lemma_runs_put_together(s, class);
    assert((|c: char| class.holds(c)) =~= (|c: char| alphanumeric(c)));
    lemma_run_places(s, class)
}

// ----------------------------------------------------------------------------------------------
// What holds of joining
// ----------------------------------------------------------------------------------------------

/// Joining nothing gives nothing, joining one piece gives that piece, and joining two rows of
/// pieces one after the other gives what the one is joined to, the separator, and what the other
/// is joined to.
pub proof fn law_joining_goes_piece_by_piece(
    a: Seq<Seq<char>>,
    b: Seq<Seq<char>>,
    piece: Seq<char>,
    sep: Seq<char>,
)
    ensures
        joined(Seq::empty(), sep) == Seq::<char>::empty(),
        joined(seq![piece], sep) == piece,
        a.len() > 0 && b.len() > 0 ==> joined(a + b, sep) == joined(a, sep) + sep + joined(b, sep),
    decreases b.len(),
{
    if a.len() > 0 && b.len() > 0 {
        let all = a + b;
        assert(all.drop_last() =~= a + b.drop_last());
        assert(all.last() == b.last());
        if b.len() == 1 {
            assert(a + b.drop_last() =~= a);
        } else {
            law_joining_goes_piece_by_piece(a, b.drop_last(), piece, sep);
            assert(joined(a, sep) + sep + joined(b.drop_last(), sep) + sep + b.last() =~= joined(
                a,
                sep,
            ) + sep + (joined(b.drop_last(), sep) + sep + b.last()));
        }
    }
}

proof fn lemma_first_run_ends(w: Seq<char>, rest: Seq<char>, class: CharClass)
    requires
        w.len() > 0,
        forall|i: int| 0 <= i < w.len() ==> class.holds(#[trigger] w[i]),
        rest.len() > 0 ==> !class.holds(rest[0]),
    ensures
        runs(w + rest, class) == seq![w] + runs(rest, class),
{
    let s = w + rest;
    lemma_prefix_run(s, class);
    let n = prefix_run(s, class) as int;
    assert(s.first() == w[0]);
    if n < w.len() {
        assert(s[n] == w[n]);
    }
    if n > w.len() {
        assert(s[w.len() as int] == rest[0]);
    }
    assert(s.take(n) =~= w);
    assert(s.skip(n) =~= rest);
}

/// Words that are joined with single spaces are split into the same words again, whatever is in
/// them but whitespace.
pub proof fn law_joined_words_are_split_again(words: Seq<Seq<char>>)
    requires
        forall|i: int| 0 <= i < words.len() ==> (#[trigger] words[i]).len() > 0,
        forall|i: int, k: int|
            0 <= i < words.len() && 0 <= k < words[i].len() ==> !white_space(#[trigger] words[i][k]),
    ensures
        runs(joined(words, " "@), CharClass::NonWhitespace) == words,
    decreases words.len(),
{
    reveal_strlit(" ");
    let class = CharClass::NonWhitespace;
    if words.len() > 0 {
        let w = words[0];
        let rest = words.drop_first();
        assert(words =~= seq![w] + rest);
        assert forall|i: int, k: int|
            0 <= i < rest.len() && 0 <= k < rest[i].len() implies !white_space(
            #[trigger] rest[i][k],
        ) by {
            assert(rest[i] == words[i + 1]);
            assert(!white_space(words[i + 1][k]));
        }
        assert forall|i: int| 0 <= i < w.len() implies class.holds(#[trigger] w[i]) by {
            assert(!white_space(words[0][i]));
        }
        assert forall|i: int| 0 <= i < rest.len() implies (#[trigger] rest[i]).len() > 0 by {
            assert(rest[i] == words[i + 1]);
        }
        law_joined_words_are_split_again(rest);
        if rest.len() == 0 {
            lemma_first_run_ends(w, Seq::empty(), class);
            assert(w + Seq::<char>::empty() =~= w);
            assert(joined(words, " "@) == w);
            assert(words =~= seq![w] + runs(Seq::<char>::empty(), class));
        } else {
            law_joining_goes_piece_by_piece(seq![w], rest, w, " "@);
            let tail = " "@ + joined(rest, " "@);
            assert(w + " "@ + joined(rest, " "@) =~= w + tail);
            lemma_first_run_ends(w, tail, class);
            assert(tail.drop_first() =~= joined(rest, " "@));
            assert(runs(tail, class) == runs(joined(rest, " "@), class));
        }
    }
}

/// A text whose only whitespace is single spaces, none of them at either end, is its words joined
/// with single spaces; they are one more than the spaces.
pub proof fn law_single_spaces_are_put_back(s: Seq<char>)
    requires
        s.len() > 0,
        !white_space(s[0]),
        !white_space(s.last()),
        forall|i: int| 0 <= i < s.len() && white_space(#[trigger] s[i]) ==> s[i] == ' ',
        forall|i: int, j: int|
            0 <= i < s.len() && j == i + 1 && white_space(#[trigger] s[i]) ==> !white_space(
                #[trigger] s[j],
            ),
    ensures
        joined(runs(s, CharClass::NonWhitespace), " "@) == s,
        runs(s, CharClass::NonWhitespace).len() == 1 + s.filter(|c: char| c == ' ').len(),
    decreases s.len(),
{
    reveal_strlit(" ");
    let class = CharClass::NonWhitespace;
    let space = |c: char| c == ' ';
    lemma_prefix_run(s, class);
    let n = prefix_run(s, class) as int;
    let w = s.take(n);
    assert forall|i: int| 0 <= i < w.len() implies !space(#[trigger] w[i]) by {
        assert(w[i] == s[i]);
    }
    w.lemma_all_neg_filter_empty(space);
    let behind = s.skip(n);
    assert(s =~= w + behind);
    Seq::filter_distributes_over_add(w, behind, space);
    if n == s.len() {
        assert(runs(behind, class) =~= Seq::<Seq<char>>::empty());
        assert(runs(s, class) =~= seq![w] + runs(behind, class));
        assert(runs(s, class) =~= seq![s]);
        reveal(Seq::filter);
        assert(behind.filter(space) =~= Seq::<char>::empty());
    } else {
        assert(n < s.len() - 1) by {
            assert(s[n] == ' ');
            if n == s.len() - 1 {
                assert(s.last() == s[n]);
            }
        }
        let rest = s.skip(n + 1);
        assert(behind.drop_first() =~= rest);
        assert(rest[0] == s[n + 1]);
        assert(rest.last() == s.last());
        assert forall|i: int| 0 <= i < rest.len() && white_space(#[trigger] rest[i]) implies rest[i]
            == ' ' by {
            assert(rest[i] == s[i + n + 1]);
        }
        assert forall|i: int, j: int|
            0 <= i < rest.len() && j == i + 1 && white_space(
                #[trigger] rest[i],
            ) implies !white_space(#[trigger] rest[j]) by {
            assert(rest[i] == s[i + n + 1]);
            if j < rest.len() {
                assert(rest[j] == s[j + n + 1]);
            } else {
                assert(rest[i] == s.last());
            }
        }
        law_single_spaces_are_put_back(rest);
        let words = runs(rest, class);
        assert(behind.first() == s[n]);
        assert(runs(behind, class) == words);
        assert(s.first() == s[0]);
        assert(runs(s, class) =~= seq![w] + words);
        law_joining_goes_piece_by_piece(seq![w], words, w, " "@);
        assert(w + " "@ + rest =~= s);
        assert(behind =~= seq![' '] + rest);
        Seq::filter_distributes_over_add(seq![' '], rest, space);
        assert(seq![' '].filter(space) =~= seq![' ']) by {
            reveal(Seq::filter);
            assert(seq![' '].drop_last() =~= Seq::<char>::empty());
            assert(seq![' '].drop_last().filter(space) =~= Seq::<char>::empty());
            assert(seq![' '].last() == ' ');
        }
    }
}

// ----------------------------------------------------------------------------------------------
// What holds of searching and replacing
// ----------------------------------------------------------------------------------------------

/// A text that stands between any two others is found in them put together.
pub proof fn law_texts_are_found_anywhere(a: Seq<char>, needle: Seq<char>, b: Seq<char>)
    ensures
        has_text(a + needle + b, needle),
{
    let text = a + needle + b;
    assert(text.subrange(a.len() as int, (a.len() + needle.len()) as int) =~= needle);
    assert(occurs_at(text, needle, a.len() as int));
}

/// A text that is found in another stands in it, with what is before it and what is behind it.
pub proof fn law_found_texts_are_there(text: Seq<char>, needle: Seq<char>) -> (around: (
    Seq<char>,
    Seq<char>,
))
    requires
        has_text(text, needle),
    ensures
        text == around.0 + needle + around.1,
{
    let at = choose|at: int| occurs_at(text, needle, at);
    let a = text.take(at);
    let b = text.skip(at + needle.len());
    assert(text =~= a + text.subrange(at, at + needle.len()) + b);
    (a, b)
}

/// Replacing works character by character: on one text behind another it does what it does on
/// each, and on a single character it puts the other text for the one that is replaced and leaves
/// every other as it is.
pub proof fn law_replacing_goes_character_by_character(
    a: Seq<char>,
    b: Seq<char>,
    x: char,
    c: char,
    by: Seq<char>,
)
    ensures
        replaced(a + b, c, by) == replaced(a, c, by) + replaced(b, c, by),
        x == c ==> replaced(seq![x], c, by) == by,
        x != c ==> replaced(seq![x], c, by) == seq![x],
    decreases b.len(),
{
    assert(seq![x].drop_last() =~= Seq::<char>::empty());
    assert(replaced(seq![x].drop_last(), c, by) =~= Seq::<char>::empty());
    assert(seq![x].last() == x);
    assert(Seq::<char>::empty() + by =~= by);
    assert(Seq::<char>::empty() + seq![x] =~= seq![x]);
    if b.len() == 0 {
        assert(a + b =~= a);
        assert(replaced(a, c, by) + replaced(b, c, by) =~= replaced(a, c, by));
    } else {
        law_replacing_goes_character_by_character(a, b.drop_last(), x, c, by);
        assert((a + b).drop_last() =~= a + b.drop_last());
        let head = if b.last() == c {
            by
        } else {
            seq![b.last()]
        };
        assert(replaced(a, c, by) + replaced(b.drop_last(), c, by) + head =~= replaced(a, c, by) + (
        replaced(b.drop_last(), c, by) + head));
    }
}

// ----------------------------------------------------------------------------------------------
// What holds of numerals
// ----------------------------------------------------------------------------------------------

/// A number below ten is written as its digit, and each further digit is written behind the
/// numeral of the number in front of it.
pub proof fn law_numerals_are_decimal(n: nat, d: nat)
    requires
        d < 10,
    ensures
        numeral(d) == seq!["0123456789"@[d as int]],
        n > 0 ==> numeral(n * 10 + d) == numeral(n) + seq!["0123456789"@[d as int]],
{
    reveal_strlit("0123456789");
    assert(digit_char(d) == "0123456789"@[d as int]);
    if n > 0 {
        assert((n * 10 + d) / 10 == n);
        assert((n * 10 + d) % 10 == d);
        assert(numeral(n * 10 + d) =~= numeral(n) + seq![digit_char(d)]);
    }
}

/// A digit is read as its value, a digit behind a number as the next decimal place, and a plus
/// sign in front of digits makes no difference. Nothing else is read as a number: neither an empty
/// text nor a plus sign alone nor a text with any other character.
pub proof fn law_numbers_are_read_in_decimal(s: Seq<char>, c: char, v: nat)
    ensures
        '0' <= c && c <= '9' ==> parsed_number(seq![c]) == Some((c as nat - 48) as nat),
        '0' <= c && c <= '9' && parsed_number(s) == Some(v) ==> parsed_number(s.push(c)) == Some(
            (v * 10 + (c as nat - 48)) as nat,
        ),
        s.len() > 0 && '0' <= s[0] && s[0] <= '9' ==> parsed_number(seq!['+'] + s) == parsed_number(s),
        parsed_number(Seq::empty()) is None,
        parsed_number(seq!['+']) is None,
        forall|i: int|
            0 < i < s.len() && !('0' <= #[trigger] s[i] && s[i] <= '9') ==> parsed_number(s) is None,
        s.len() > 0 && s[0] != '+' && !('0' <= s[0] && s[0] <= '9') ==> parsed_number(s) is None,
{
    if '0' <= c && c <= '9' {
        let one = seq![c];
        assert(all_digits(one));
        assert(one.drop_last() =~= Seq::<char>::empty());
        assert(digits_value(one.drop_last()) == 0);
        assert(one.last() == c);
        if parsed_number(s) == Some(v) {
            let longer = s.push(c);
            let signed = s[0] == '+';
            let body = if signed {
                s.skip(1)
            } else {
                s
            };
            let longer_body = if signed {
                longer.skip(1)
            } else {
                longer
            };
            assert(longer[0] == s[0]);
            assert(longer_body =~= body.push(c));
            assert forall|i: int| 0 <= i < longer_body.len() implies is_digit(
                #[trigger] longer_body[i],
            ) by {
                if i < body.len() {
                    assert(longer_body[i] == body[i]);
                }
            }
            assert(longer_body.drop_last() =~= body);
        }
    }
    if s.len() > 0 && '0' <= s[0] && s[0] <= '9' {
        assert((seq!['+'] + s).skip(1) =~= s);
    }
    assert(seq!['+'].skip(1).len() == 0);
    assert forall|i: int| 0 < i < s.len() && !('0' <= #[trigger] s[i] && s[i] <= '9') implies parsed_number(
        s,
    ) is None by {
        if s[0] == '+' {
            assert(!is_digit(s.skip(1)[i - 1]));
        } else {
            assert(!is_digit(s[i]));
        }
    }
}

/// The views of strings are their characters, each string's in its place.
pub proof fn law_views_are_the_strings(v: Seq<String>, i: int)
    ensures
        texts(v).len() == v.len(),
        0 <= i < v.len() ==> texts(v)[i] == v[i]@,
{
}

} // verus!
