//! What is promised of texts: of trimming, splitting, searching, joining, replacing and numerals.
use vstd::prelude::*;

use crate::text::{
    alphanumeric, contains, decimal, has_text, is_blank, join, joined, law_found_texts_are_there,
    law_joining_goes_piece_by_piece, law_letters_and_numbers_make_words, law_numerals_are_decimal,
    law_numerals_read_back, law_replacing_goes_character_by_character, law_texts_are_found_anywhere,
    law_trimming_an_end_takes_every_copy, law_trimming_takes_the_whitespace_around,
    law_whitespace_splits_words, parse_usize, replace_char, replaced, split_runs, texts, trim,
    trim_end_of, white_space, CharClass,
};

verus! {

/// Trimming takes away the whitespace at either end and nothing else.
pub proof fn law_texts_are_trimmed_at_their_ends(s: &str, r: String) -> (cut: (int, int))
    requires
        call_ensures(trim, (s,), r),
    ensures
        0 <= cut.0 <= cut.1 <= s@.len(),
        r@ == s@.subrange(cut.0, cut.1),
        forall|i: int| 0 <= i < cut.0 ==> white_space(#[trigger] s@[i]),
        forall|i: int| cut.1 <= i < s@.len() ==> white_space(#[trigger] s@[i]),
        cut.0 < cut.1 ==> !white_space(s@[cut.0]) && !white_space(s@[cut.1 - 1]),
{
    law_trimming_takes_the_whitespace_around(s@)
}

/// Trimming one character off the end takes away every copy of it there and nothing else.
pub proof fn law_texts_are_trimmed_of_one_character(s: &str, c: char, r: String) -> (end: int)
    requires
        call_ensures(trim_end_of, (s, c), r),
    ensures
        0 <= end <= s@.len(),
        r@ == s@.subrange(0, end),
        forall|i: int| end <= i < s@.len() ==> #[trigger] s@[i] == c,
        0 < end ==> s@[end - 1] != c,
{
    law_trimming_an_end_takes_every_copy(s@, c)
}

/// A text is blank exactly where trimming leaves nothing of it, and where all of its characters are
/// whitespace.
pub proof fn law_blank_texts_are_all_whitespace(s: &str, r: bool, left: String)
    requires
        call_ensures(is_blank, (s,), r),
        call_ensures(trim, (s,), left),
    ensures
        r <==> forall|i: int| 0 <= i < s@.len() ==> white_space(#[trigger] s@[i]),
        r <==> left@.len() == 0,
{
    let cut = law_trimming_takes_the_whitespace_around(s@);
    if left@.len() == 0 {
        assert forall|i: int| 0 <= i < s@.len() implies white_space(#[trigger] s@[i]) by {
            if i >= cut.0 {
                assert(cut.1 <= i);
            }
        }
    } else {
        assert(!white_space(s@[cut.0]));
    }
}

/// Splitting keeps every character of its class, in order, and no other.
pub proof fn law_splitting_keeps_the_characters(s: &str, words: Vec<String>, tokens: Vec<String>)
    requires
        call_ensures(split_runs, (s, CharClass::NonWhitespace), words),
        call_ensures(split_runs, (s, CharClass::Alphanumeric), tokens),
    ensures
        words@.map_values(|w: String| w@).flatten() == s@.filter(|c: char| !white_space(c)),
        tokens@.map_values(|w: String| w@).flatten() == s@.filter(|c: char| alphanumeric(c)),
{
    let a = law_whitespace_splits_words(s@);
    let b = law_letters_and_numbers_make_words(s@);
    assert(words@.map_values(|w: String| w@) =~= texts(words@));
    assert(tokens@.map_values(|w: String| w@) =~= texts(tokens@));
}

/// A text contains another exactly where it is that one with something before it and behind it, be it
/// nothing.
pub proof fn law_texts_contain_what_is_in_them(text: &str, needle: &str, r: bool)
    requires
        call_ensures(contains, (text, needle), r),
    ensures
        r <==> exists|a: Seq<char>, b: Seq<char>| text@ == #[trigger] (a + needle@ + b),
{
    if r {
        let around = law_found_texts_are_there(text@, needle@);
        assert(text@ == around.0 + needle@ + around.1);
    }
    if exists|a: Seq<char>, b: Seq<char>| text@ == #[trigger] (a + needle@ + b) {
        let (a, b) = choose|a: Seq<char>, b: Seq<char>| text@ == #[trigger] (a + needle@ + b);
        law_texts_are_found_anywhere(a, needle@, b);
        assert(has_text(text@, needle@));
    }
}

/// Pieces are joined one after the other with the separator between: one piece more adds the
/// separator, unless it is the first, and the whole piece.
pub proof fn law_pieces_are_joined_whole(
    pieces: &Vec<String>,
    sep: &str,
    r: String,
    more: &Vec<String>,
    s: String,
)
    requires
        call_ensures(join, (pieces, sep), r),
        call_ensures(join, (more, sep), s),
        more@.len() == pieces@.len() + 1,
        more@.drop_last() == pieces@,
    ensures
        pieces@.len() == 0 ==> r@.len() == 0 && s@ == more@.last()@,
        pieces@.len() > 0 ==> s@ == r@ + sep@ + more@.last()@,
{
    let a = texts(pieces@);
    let last = seq![more@.last()@];
    law_joining_goes_piece_by_piece(a, last, more@.last()@, sep@);
    assert(texts(more@) =~= a + last);
    if pieces@.len() == 0 {
        assert(a =~= Seq::<Seq<char>>::empty());
        assert(texts(more@) =~= last);
        assert(joined(a, sep@) =~= Seq::<char>::empty());
    }
}

/// Replacing puts the other text for each copy of the character, and leaves all else as it is.
pub proof fn law_each_copy_is_replaced(s: &str, c: char, by: &str, r: String)
    requires
        call_ensures(replace_char, (s, c, by), r),
    ensures
        r@ == s@.map_values(
            |x: char|
                if x == c {
                    by@
                } else {
                    seq![x]
                },
        ).flatten(),
{
    lemma_replaced_flat(s@, c, by@);
    let f = by@;
    assert((|x: char|
        if x == c {
            f
        } else {
            seq![x]
        }) =~= (|x: char|
        if x == c {
            by@
        } else {
            seq![x]
        }));
}

proof fn lemma_replaced_flat(s: Seq<char>, c: char, by: Seq<char>)
    ensures
        replaced(s, c, by) == s.map_values(
            |x: char|
                if x == c {
                    by
                } else {
                    seq![x]
                },
        ).flatten(),
    decreases s.len(),
{
    let put = |x: char|
        if x == c {
            by
        } else {
            seq![x]
        };
    let all = s.map_values(put);
    all.lemma_flatten_and_flatten_alt_are_equivalent();
    if s.len() > 0 {
        let front = s.drop_last();
        let last = seq![s.last()];
        lemma_replaced_flat(front, c, by);
        assert(all.drop_last() =~= front.map_values(put));
        front.map_values(put).lemma_flatten_and_flatten_alt_are_equivalent();
        assert(all.last() == put(s.last()));
        assert(s =~= front + last);
        law_replacing_goes_character_by_character(front, last, s.last(), c, by);
    } else {
        assert(s =~= Seq::<char>::empty());
        assert(replaced(s, c, by) =~= Seq::<char>::empty());
    }
}

/// A number that is written in decimal is read again as that number; below ten it is written as its
/// digit.
pub proof fn law_numbers_are_written_and_read_again(
    n: u64,
    s: String,
    t: &str,
    r: Option<usize>,
)
    requires
        call_ensures(decimal, (n,), s),
        t@ == s@,
        call_ensures(parse_usize, (t,), r),
    ensures
        n <= usize::MAX ==> r is Some && r->0 == n,
        n > usize::MAX ==> r is None,
        n < 10 ==> s@ == seq!["0123456789"@[n as int]],
{
    law_numerals_read_back(n as nat);
    if n < 10 {
        law_numerals_are_decimal(0, n as nat);
    }
}

/// One decimal place more is one digit more behind the numeral.
pub proof fn law_numerals_grow_by_their_last_digit(n: u64, s: String, m: u64, t: String)
    requires
        call_ensures(decimal, (n,), s),
        call_ensures(decimal, (m,), t),
        n >= 10,
        m == n / 10,
    ensures
        s@ == t@ + seq!["0123456789"@[n as int % 10]],
{
    law_numerals_are_decimal(m as nat, (n % 10) as nat);
    assert(m as nat * 10 + (n % 10) as nat == n as nat);
}

} // verus!
