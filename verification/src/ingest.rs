//! Ingestion: from a file in the void to the rows that are stored for it.
use vstd::prelude::*;
use vstd::utf8::{decode_utf8, encode_utf8, valid_utf8};

use crate::text::{
    blank, concat3, decimal, is_blank, join_range, joined, law_joined_words_are_split_again,
    law_single_spaces_are_put_back, law_whitespace_splits_words, lowercase, numeral, runs, split_runs,
    str_eq, texts, white_space, CharClass,
};

verus! {

// ----------------------------------------------------------------------------------------------
// Getting at the text
// ----------------------------------------------------------------------------------------------

/// How the text of a file is got at.
#[derive(Clone, Copy, PartialEq, Eq, Structural, Debug)]
pub enum FileKind {
    /// By extracting it from a PDF.
    Pdf,
    /// Not at all: the format is known to hold no text.
    Binary,
    /// By reading the file.
    Plain,
}

/// Whether a lower-case file extension is that of a known binary format.
pub open spec fn binary_extension(ext: Seq<char>) -> bool {
    ||| ext == "jpg"@
    ||| ext == "jpeg"@
    ||| ext == "png"@
    ||| ext == "gif"@
    ||| ext == "exe"@
    ||| ext == "dll"@
    ||| ext == "so"@
    ||| ext == "dylib"@
    ||| ext == "zip"@
    ||| ext == "tar"@
    ||| ext == "gz"@
    ||| ext == "bin"@
    ||| ext == "class"@
    ||| ext == "pyc"@
}

/// How the text of a file with this lower-case extension is got at.
pub open spec fn kind_for(ext: Seq<char>) -> FileKind {
    if ext == "pdf"@ {
        FileKind::Pdf
    } else if binary_extension(ext) {
        FileKind::Binary
    } else {
        FileKind::Plain
    }
}

/// How the text of a file is got at, by its extension in any case; a file without one has the
/// empty extension.
pub fn file_kind(extension: &str) -> (r: FileKind)
    ensures
        r == kind_for(lowercase(extension@)),
        r == FileKind::Binary <==> {
            let ext = lowercase(extension@);
            ext == "jpg"@ || ext == "jpeg"@ || ext == "png"@ || ext == "gif"@ || ext == "exe"@
                || ext == "dll"@ || ext == "so"@ || ext == "dylib"@ || ext == "zip"@ || ext
                == "tar"@ || ext == "gz"@ || ext == "bin"@ || ext == "class"@ || ext == "pyc"@
        },
        r == FileKind::Pdf <==> lowercase(extension@) == "pdf"@,
{
    proof {
        law_only_listed_extensions_are_binary(lowercase(extension@));
    }
    let lower: String = extension.to_lowercase();
    let ext: &str = lower.as_str();
    if str_eq(ext, "pdf") {
        FileKind::Pdf
    } else if str_eq(ext, "jpg") || str_eq(ext, "jpeg") || str_eq(ext, "png") || str_eq(ext, "gif")
        || str_eq(ext, "exe") || str_eq(ext, "dll") || str_eq(ext, "so") || str_eq(ext, "dylib")
        || str_eq(ext, "zip") || str_eq(ext, "tar") || str_eq(ext, "gz") || str_eq(ext, "bin")
        || str_eq(ext, "class") || str_eq(ext, "pyc") {
        FileKind::Binary
    } else {
        FileKind::Plain
    }
}

/// The binary formats are those of fourteen extensions and no others. Every other extension but that
/// of a PDF is of a file that is read: those of source code and of data too.
pub proof fn law_only_listed_extensions_are_binary(ext: Seq<char>)
    ensures
        kind_for(ext) == FileKind::Binary <==> ext == "jpg"@ || ext == "jpeg"@ || ext == "png"@
            || ext == "gif"@ || ext == "exe"@ || ext == "dll"@ || ext == "so"@ || ext == "dylib"@
            || ext == "zip"@ || ext == "tar"@ || ext == "gz"@ || ext == "bin"@ || ext == "class"@
            || ext == "pyc"@,
        kind_for(ext) == FileKind::Pdf <==> ext == "pdf"@,
        kind_for(ext) == FileKind::Plain <==> !seq![
            "pdf"@,
            "jpg"@,
            "jpeg"@,
            "png"@,
            "gif"@,
            "exe"@,
            "dll"@,
            "so"@,
            "dylib"@,
            "zip"@,
            "tar"@,
            "gz"@,
            "bin"@,
            "class"@,
            "pyc"@,
        ].contains(ext),
        ext == "py"@ || ext == "rs"@ || ext == "csv"@ || ext == "json"@ || ext == "html"@ || ext
            == "txt"@ || ext == "md"@ || ext == ""@ ==> kind_for(ext) == FileKind::Plain,
{
    reveal_strlit("pdf");
    reveal_strlit("jpg");
    reveal_strlit("jpeg");
    reveal_strlit("png");
    reveal_strlit("gif");
    reveal_strlit("exe");
    reveal_strlit("dll");
    reveal_strlit("so");
    reveal_strlit("dylib");
    reveal_strlit("zip");
    reveal_strlit("tar");
    reveal_strlit("gz");
    reveal_strlit("bin");
    reveal_strlit("class");
    reveal_strlit("pyc");
    reveal_strlit("py");
    reveal_strlit("rs");
    reveal_strlit("csv");
    reveal_strlit("json");
    reveal_strlit("html");
    reveal_strlit("txt");
    reveal_strlit("md");
    reveal_strlit("");
    assert("pdf"@[0] == 'p' && "pdf"@[1] == 'd' && "jpg"@[0] == 'j' && "jpg"@[1] == 'p' && "jpeg"@[0]
        == 'j' && "jpeg"@[1] == 'p' && "png"@[0] == 'p' && "png"@[1] == 'n' && "gif"@[0] == 'g'
        && "exe"@[0] == 'e' && "dll"@[0] == 'd' && "so"@[0] == 's' && "dylib"@[0] == 'd'
        && "zip"@[0] == 'z' && "tar"@[0] == 't' && "tar"@[1] == 'a' && "gz"@[0] == 'g' && "bin"@[0]
        == 'b' && "class"@[0] == 'c' && "pyc"@[0] == 'p' && "pyc"@[1] == 'y');
    assert("py"@.len() == 2 && "py"@[0] == 'p' && "rs"@[0] == 'r' && "csv"@[0] == 'c' && "csv"@[1]
        == 's' && "json"@[0] == 'j' && "json"@[1] == 's' && "html"@[0] == 'h' && "txt"@[0] == 't'
        && "txt"@[1] == 'x' && "md"@[0] == 'm' && ""@.len() == 0 && "class"@[1] == 'l');
    let listed = seq![
        "pdf"@,
        "jpg"@,
        "jpeg"@,
        "png"@,
        "gif"@,
        "exe"@,
        "dll"@,
        "so"@,
        "dylib"@,
        "zip"@,
        "tar"@,
        "gz"@,
        "bin"@,
        "class"@,
        "pyc"@,
    ];
    assert(listed[0] == "pdf"@ && listed[1] == "jpg"@ && listed[2] == "jpeg"@ && listed[3] == "png"@
        && listed[4] == "gif"@ && listed[5] == "exe"@ && listed[6] == "dll"@ && listed[7] == "so"@
        && listed[8] == "dylib"@ && listed[9] == "zip"@ && listed[10] == "tar"@ && listed[11]
        == "gz"@ && listed[12] == "bin"@ && listed[13] == "class"@ && listed[14] == "pyc"@);
    assert(listed.len() == 15);
}

/// The text, unless there is nothing in it but whitespace.
pub open spec fn unless_blank(t: Seq<char>) -> Option<Seq<char>> {
    if blank(t) {
        None
    } else {
        Some(t)
    }
}

/// The view of an optional string.
pub open spec fn string_option(s: Option<String>) -> Option<Seq<char>> {
    match s {
        Some(t) => Some(t@),
        None => None,
    }
}

/// Hands the text on, unless there is nothing in it but whitespace.
pub fn non_blank(t: String) -> (r: Option<String>)
    ensures
        string_option(r) == unless_blank(t@),
{
    if is_blank(t.as_str()) {
        None
    } else {
        Some(t)
    }
}

/// How many bytes at the front of a file are searched for a zero byte.
pub const SNIFF_BYTES: usize = 1024;

/// Whether bytes look like a binary file: there is a zero among the first of them.
pub open spec fn looks_binary(b: Seq<u8>) -> bool {
    exists|i: int| 0 <= i < b.len() && i < SNIFF_BYTES && #[trigger] b[i] == 0
}

/// The text of a file read as bytes: none where they look binary, are no UTF-8 or hold nothing but
/// whitespace.
pub open spec fn text_in(b: Seq<u8>) -> Option<Seq<char>> {
    if looks_binary(b) || !valid_utf8(b) {
        None
    } else {
        unless_blank(decode_utf8(b))
    }
}

fn sniff_binary(b: &Vec<u8>) -> (r: bool)
    ensures
        r == looks_binary(b@),
{
    let n: usize = if b.len() < SNIFF_BYTES {
        b.len()
    } else {
        SNIFF_BYTES
    };
    let mut i: usize = 0;
    while i < n
        invariant
            i <= n <= b@.len(),
            n <= SNIFF_BYTES,
            n == b@.len() || n == SNIFF_BYTES,
            forall|k: int| 0 <= k < i ==> #[trigger] b@[k] != 0,
        decreases n - i,
    {
        if b[i] == 0 {
            return true;
        }
        i = i + 1;
    }
    false
}

/// What was got of a file, by its kind; `None` inside where that failed.
#[derive(Debug)]
pub enum FileContent {
    /// The text that was extracted from a PDF.
    Pdf(Option<String>),
    /// Nothing was read of a binary format.
    Binary,
    /// The bytes of the file.
    Plain(Option<Vec<u8>>),
}

/// The text to be indexed of a file.
pub open spec fn extracted(content: FileContent) -> Option<Seq<char>> {
    match content {
        FileContent::Pdf(Some(t)) => unless_blank(t@),
        FileContent::Pdf(None) => None,
        FileContent::Binary => None,
        FileContent::Plain(Some(b)) => text_in(b@),
        FileContent::Plain(None) => None,
    }
}

/// The text to be indexed of a file, where there is any.
pub fn extract_text(content: FileContent) -> (r: Option<String>)
    ensures
        string_option(r) == extracted(content),
{
    match content {
        FileContent::Pdf(Some(t)) => non_blank(t),
        FileContent::Pdf(None) => None,
        FileContent::Binary => None,
        FileContent::Plain(None) => None,
        FileContent::Plain(Some(b)) => {
            if sniff_binary(&b) {
                return None;
            }
            match String::from_utf8(b) {
                Ok(t) => non_blank(t),
                Err(_) => None,
            }
        },
    }
}

/// The text of a file that is read is the whole text that its bytes encode, with the whitespace
/// around it. There is one exactly where no zero is among the first 1024 bytes, the bytes are the
/// encoding of some text, and not all of its characters are whitespace.
pub proof fn law_read_files_keep_their_text(b: Vec<u8>, t: Seq<char>)
    ensures
        extracted(FileContent::Plain(Some(b))) == Some(t) <==> {
            &&& encode_utf8(t) == b@
            &&& forall|i: int| 0 <= i < b@.len() && i < 1024 ==> #[trigger] b@[i] != 0
            &&& exists|i: int| 0 <= i < t.len() && !white_space(#[trigger] t[i])
        },
        extracted(FileContent::Plain(Some(b))) is None <==> {
            ||| exists|i: int| 0 <= i < b@.len() && i < 1024 && #[trigger] b@[i] == 0
            ||| !valid_utf8(b@)
            ||| forall|i: int|
                0 <= i < decode_utf8(b@).len() ==> white_space(#[trigger] decode_utf8(b@)[i])
        },
{
    vstd::utf8::encode_utf8_decode_utf8(t);
    vstd::utf8::encode_utf8_valid_utf8(t);
    if valid_utf8(b@) {
        vstd::utf8::decode_utf8_encode_utf8(b@);
    }
}

/// The text that was extracted from a PDF is kept whole, unless all of its characters are
/// whitespace. A file of a binary format, and one that could not be read, has none.
pub proof fn law_extracted_texts_are_kept(s: String)
    ensures
        extracted(FileContent::Pdf(Some(s))) is Some <==> exists|i: int|
            0 <= i < s@.len() && !white_space(#[trigger] s@[i]),
        extracted(FileContent::Pdf(Some(s))) is Some ==> extracted(FileContent::Pdf(Some(s)))
            == Some(s@),
        extracted(FileContent::Pdf(None)) is None,
        extracted(FileContent::Binary) is None,
        extracted(FileContent::Plain(None)) is None,
{
}

// ----------------------------------------------------------------------------------------------
// Chunks
// ----------------------------------------------------------------------------------------------

/// How many words a chunk has at most, unless the settings say otherwise.
pub const CHUNK: usize = 200;

/// How many words consecutive chunks share, unless the settings say otherwise.
pub const OVERLAP: usize = 50;

/// How many chunks of `chunk` words, each sharing `overlap` with the one before it, a text of so
/// many words is cut into.
pub open spec fn chunk_count(words: nat, chunk: nat, overlap: nat) -> nat {
    if words == 0 {
        0
    } else if words <= chunk {
        1
    } else {
        ((words - chunk + (chunk - overlap) - 1) / (chunk - overlap) + 1) as nat
    }
}

/// At which word a chunk starts.
pub open spec fn chunk_start(k: int, chunk: nat, overlap: nat) -> int {
    k * (chunk - overlap)
}

/// Before which word a chunk ends.
pub open spec fn chunk_end(k: int, words: nat, chunk: nat, overlap: nat) -> int {
    if chunk_start(k, chunk, overlap) + chunk < words {
        chunk_start(k, chunk, overlap) + chunk
    } else {
        words as int
    }
}

/// The words of a text: its runs of characters that are no whitespace.
pub open spec fn words_of(text: Seq<char>) -> Seq<Seq<char>> {
    runs(text, CharClass::NonWhitespace)
}

/// The chunks that words are cut into, each the words of its window with one space between them.
pub open spec fn chunked(words: Seq<Seq<char>>, chunk: nat, overlap: nat) -> Seq<Seq<char>> {
    Seq::new(
        chunk_count(words.len(), chunk, overlap),
        |k: int|
            joined(
                words.subrange(
                    chunk_start(k, chunk, overlap),
                    chunk_end(k, words.len(), chunk, overlap),
                ),
                " "@,
            ),
    )
}

/// A chunk is followed by another exactly where it does not reach the last word.
proof fn lemma_next_chunk(words: nat, chunk: nat, overlap: nat, k: int)
    requires
        overlap < chunk,
        words > 0,
        k >= 0,
    ensures
        k + 1 < chunk_count(words, chunk, overlap) <==> chunk_start(k, chunk, overlap) + chunk
            < words,
        chunk_count(words, chunk, overlap) >= 1,
        chunk_start(k + 1, chunk, overlap) == chunk_start(k, chunk, overlap) + (chunk - overlap),
        chunk_start(k, chunk, overlap) >= 0,
        chunk_start(0, chunk, overlap) == 0,
{
    let step = chunk - overlap;
    assert((k + 1) * step == k * step + step) by (nonlinear_arith);
    assert(k * step >= 0) by (nonlinear_arith)
        requires
            k >= 0,
            step > 0,
    ;
    assert(0 * step == 0) by (nonlinear_arith);
    if words > chunk {
        let x = words - chunk + step - 1;
        let q = x / step;
        vstd::arithmetic::div_mod::lemma_fundamental_div_mod(x, step);
        vstd::arithmetic::div_mod::lemma_mod_bound(x, step);
        assert(step * q == q * step) by (nonlinear_arith);
        assert(k + 1 <= q <==> (k + 1) * step <= x) by (nonlinear_arith)
            requires
                step > 0,
                q * step <= x < q * step + step,
        ;
        assert(q >= 0) by (nonlinear_arith)
            requires
                step > 0,
                0 <= x < q * step + step,
        ;
    }
}

fn cut(text: &str, chunk: usize, overlap: usize) -> (r: Vec<String>)
    requires
        overlap < chunk,
    ensures
        texts(r@) == chunked(words_of(text@), chunk as nat, overlap as nat),
{
    let words: Vec<String> = split_runs(text, CharClass::NonWhitespace);
    let ghost all = texts(words@);
    let ghost whole = chunked(all, chunk as nat, overlap as nat);
    let n: usize = words.len();
    assert(all.len() == n);
    let mut out: Vec<String> = Vec::new();
    if n == 0 {
        assert(texts(out@) =~= whole);
        return out;
    }
    let mut i: usize = 0;
    let ghost mut k: int = 0;
    proof {
        lemma_next_chunk(n as nat, chunk as nat, overlap as nat, 0);
    }
    assert(texts(out@) =~= whole.take(0));
    while n - i > chunk
        invariant
            overlap < chunk,
            i < n,
            n == words@.len(),
            all == texts(words@),
            whole == chunked(all, chunk as nat, overlap as nat),
            i == chunk_start(k, chunk as nat, overlap as nat),
            0 <= k < whole.len(),
            out@.len() == k,
            texts(out@) =~= whole.take(k),
        decreases n - i,
    {
        let ghost before = texts(out@);
        let piece: String = join_range(&words, i, i + chunk, " ");
        assert(i + chunk == chunk_end(k, n as nat, chunk as nat, overlap as nat));
        out.push(piece);
        assert(texts(out@) =~= before.push(piece@));
        assert(whole[k] == piece@);
        proof {
            lemma_next_chunk(n as nat, chunk as nat, overlap as nat, k);
            k = k + 1;
        }
        i = i + (chunk - overlap);
    }
    let ghost before = texts(out@);
    let piece: String = join_range(&words, i, n, " ");
    assert(n == chunk_end(k, n as nat, chunk as nat, overlap as nat));
    assert(whole[k] == piece@);
    out.push(piece);
    assert(texts(out@) =~= before.push(piece@));
    proof {
        lemma_next_chunk(n as nat, chunk as nat, overlap as nat, k);
    }
    assert(texts(out@) =~= whole);
    out
}

/// Cuts a text into chunks of two hundred words, each sharing fifty with the one before it.
pub fn chunk_text(text: &str) -> (r: Vec<String>)
    ensures
        texts(r@) == chunked(words_of(text@), CHUNK as nat, OVERLAP as nat),
        texts(r@) == chunked(words_of(text@), 200, 50),
        ({
            &&& text@.len() > 0
            &&& !white_space(text@[0])
            &&& !white_space(text@.last())
            &&& forall|i: int|
                0 <= i < text@.len() && white_space(#[trigger] text@[i]) ==> text@[i] == ' '
            &&& forall|i: int, j: int|
                0 <= i < text@.len() && j == i + 1 && white_space(#[trigger] text@[i])
                    ==> !white_space(#[trigger] text@[j])
            &&& text@.filter(|c: char| c == ' ').len() < 200
        }) ==> texts(r@) == seq![text@],
{
    proof {
        if {
            &&& text@.len() > 0
            &&& !white_space(text@[0])
            &&& !white_space(text@.last())
            &&& forall|i: int|
                0 <= i < text@.len() && white_space(#[trigger] text@[i]) ==> text@[i] == ' '
            &&& forall|i: int, j: int|
                0 <= i < text@.len() && j == i + 1 && white_space(#[trigger] text@[i])
                    ==> !white_space(#[trigger] text@[j])
            &&& text@.filter(|c: char| c == ' ').len() < 200
        } {
            law_single_spaced_texts_are_their_own_chunk(text@, 200, 50);
        }
    }
    cut(text, CHUNK, OVERLAP)
}

/// Cuts a text into chunks of as many words as the settings say, each sharing as many with the one
/// before it. Where they would share all of their words or more, there is no way to cut a text.
pub fn chunk_text_by(text: &str, chunk_words: usize, overlap_words: usize) -> (r: Option<
    Vec<String>,
>)
    ensures
        match r {
            Some(chunks) => overlap_words < chunk_words && texts(chunks@) == chunked(
                words_of(text@),
                chunk_words as nat,
                overlap_words as nat,
            ),
            None => overlap_words >= chunk_words,
        },
{
    if overlap_words < chunk_words {
        Some(cut(text, chunk_words, overlap_words))
    } else {
        None
    }
}

/// Every word of a text is in one of its chunks.
pub proof fn law_chunks_cover_the_text(words: nat, chunk: nat, overlap: nat, w: int)
    requires
        overlap < chunk,
        0 <= w < words,
    ensures
        exists|k: int|
            0 <= k < chunk_count(words, chunk, overlap) && #[trigger] chunk_start(k, chunk, overlap)
                <= w < chunk_end(k, words, chunk, overlap),
{
    let step = chunk - overlap;
    let k = w / step;
    vstd::arithmetic::div_mod::lemma_fundamental_div_mod(w, step);
    vstd::arithmetic::div_mod::lemma_mod_bound(w, step);
    assert(step * k == k * step) by (nonlinear_arith);
    assert(k >= 0) by (nonlinear_arith)
        requires
            step > 0,
            0 <= w < k * step + step,
    ;
    let count = chunk_count(words, chunk, overlap);
    lemma_next_chunk(words, chunk, overlap, k);
    if k < count {
        assert(chunk_start(k, chunk, overlap) <= w < chunk_end(k, words, chunk, overlap));
    } else {
        let last = count - 1;
        lemma_next_chunk(words, chunk, overlap, last);
        assert(last * step <= k * step) by (nonlinear_arith)
            requires
                last <= k,
                step > 0,
        ;
        assert(chunk_start(last, chunk, overlap) <= w < chunk_end(last, words, chunk, overlap));
    }
}

/// No chunk is empty or longer than the limit, all but the last are exactly as long as it, and each
/// shares exactly the overlap with the next.
pub proof fn law_chunks_overlap(words: nat, chunk: nat, overlap: nat, k: int)
    requires
        overlap < chunk,
        0 <= k < chunk_count(words, chunk, overlap),
    ensures
        0 <= chunk_start(k, chunk, overlap) < chunk_end(k, words, chunk, overlap) <= words,
        chunk_end(k, words, chunk, overlap) - chunk_start(k, chunk, overlap) <= chunk,
        k + 1 < chunk_count(words, chunk, overlap) ==> chunk_end(k, words, chunk, overlap)
            - chunk_start(k, chunk, overlap) == chunk,
        k + 1 < chunk_count(words, chunk, overlap) ==> chunk_end(k, words, chunk, overlap)
            - chunk_start(k + 1, chunk, overlap) == overlap,
        k + 1 == chunk_count(words, chunk, overlap) ==> chunk_end(k, words, chunk, overlap)
            == words,
{
    lemma_next_chunk(words, chunk, overlap, k);
    if k > 0 {
        lemma_next_chunk(words, chunk, overlap, k - 1);
    }
}

/// A text that fits one chunk becomes that chunk; a text without words becomes none.
pub proof fn law_short_texts_are_one_chunk(words: Seq<Seq<char>>, chunk: nat, overlap: nat)
    requires
        overlap < chunk,
        words.len() <= chunk,
    ensures
        words.len() == 0 ==> chunked(words, chunk, overlap) == Seq::<Seq<char>>::empty(),
        words.len() > 0 ==> chunked(words, chunk, overlap) == seq![joined(words, " "@)],
{
    if words.len() > 0 {
        lemma_next_chunk(words.len(), chunk, overlap, 0);
        assert(words.subrange(0, words.len() as int) =~= words);
        assert(chunked(words, chunk, overlap) =~= seq![joined(words, " "@)]);
    } else {
        assert(chunked(words, chunk, overlap) =~= Seq::<Seq<char>>::empty());
    }
}

/// The words that are cut into chunks lose no character of the text but whitespace: put together
/// without anything between them, they are exactly its other characters, in order. Each of them
/// stands in the text between two places, behind whitespace or the start of the text and in front
/// of whitespace or its end, and is made of other characters.
pub proof fn law_words_lose_only_whitespace(text: Seq<char>) -> (at: Seq<(int, int)>)
    ensures
        words_of(text).flatten() == text.filter(|c: char| !white_space(c)),
        at.len() == words_of(text).len(),
        forall|i: int|
            #![trigger at[i]]
            0 <= i < at.len() ==> {
                &&& 0 <= at[i].0 < at[i].1 <= text.len()
                &&& words_of(text)[i] == text.subrange(at[i].0, at[i].1)
                &&& at[i].0 == 0 || white_space(text[at[i].0 - 1])
                &&& at[i].1 == text.len() || white_space(text[at[i].1])
            },
        forall|i: int, k: int|
            #![trigger at[i], text[k]]
            0 <= i < at.len() && at[i].0 <= k < at[i].1 ==> !white_space(text[k]),
        forall|i: int, j: int| 0 <= i < j < at.len() ==> (#[trigger] at[i]).1 <= (#[trigger] at[j]).0,
{
    law_whitespace_splits_words(text)
}

/// A text whose only whitespace is single spaces between its words, and which has no more words
/// than a chunk, is its own only chunk.
pub proof fn law_single_spaced_texts_are_their_own_chunk(
    text: Seq<char>,
    chunk: nat,
    overlap: nat,
)
    requires
        overlap < chunk,
        text.len() > 0,
        !white_space(text[0]),
        !white_space(text.last()),
        forall|i: int| 0 <= i < text.len() && white_space(#[trigger] text[i]) ==> text[i] == ' ',
        forall|i: int, j: int|
            0 <= i < text.len() && j == i + 1 && white_space(#[trigger] text[i]) ==> !white_space(
                #[trigger] text[j],
            ),
        text.filter(|c: char| c == ' ').len() < chunk,
    ensures
        chunked(words_of(text), chunk, overlap) == seq![text],
{
    law_single_spaces_are_put_back(text);
    law_short_texts_are_one_chunk(words_of(text), chunk, overlap);
}

/// The first chunk starts with the first word, and each further one as many words behind the start
/// of the one before it as a chunk is longer than the overlap. A chunk has as many words as the
/// limit, or those up to the last word of the text, and exactly where it does not reach that word
/// another one follows.
pub proof fn law_chunks_hold_their_words(text: Seq<char>, chunk: nat, overlap: nat, k: int)
    requires
        overlap < chunk,
        k >= 0,
    ensures
        chunked(words_of(text), chunk, overlap).len() > 0 <==> words_of(text).len() > 0,
        k + 1 < chunked(words_of(text), chunk, overlap).len() <==> k * (chunk - overlap) + chunk
            < words_of(text).len(),
        k < chunked(words_of(text), chunk, overlap).len() && k * (chunk - overlap) + chunk
            < words_of(text).len() ==> words_of(chunked(words_of(text), chunk, overlap)[k])
            == words_of(text).subrange(k * (chunk - overlap), k * (chunk - overlap) + chunk),
        k < chunked(words_of(text), chunk, overlap).len() && k * (chunk - overlap) + chunk
            >= words_of(text).len() ==> words_of(chunked(words_of(text), chunk, overlap)[k])
            == words_of(text).subrange(k * (chunk - overlap), words_of(text).len() as int),
{
    let words = words_of(text);
    let chunks = chunked(words, chunk, overlap);
    let start = chunk_start(k, chunk, overlap);
    let end = chunk_end(k, words.len(), chunk, overlap);
    if words.len() > 0 {
        lemma_next_chunk(words.len(), chunk, overlap, k);
    } else {
        assert(k * (chunk - overlap) >= 0) by (nonlinear_arith)
            requires
                k >= 0,
                overlap < chunk,
        ;
    }
    if k < chunks.len() {
        law_chunks_overlap(words.len(), chunk, overlap, k);
        let window = words.subrange(start, end);
        let at = law_words_lose_only_whitespace(text);
        assert forall|i: int| 0 <= i < window.len() implies (#[trigger] window[i]).len() > 0 by {
            let p = at[start + i];
            assert(window[i] == text.subrange(p.0, p.1));
        }
        assert forall|i: int, c: int|
            0 <= i < window.len() && 0 <= c < window[i].len() implies !white_space(
            #[trigger] window[i][c],
        ) by {
            let p = at[start + i];
            assert(window[i] == text.subrange(p.0, p.1));
            assert(window[i][c] == text[p.0 + c]);
        }
        law_joined_words_are_split_again(window);
        assert(chunks[k] == joined(window, " "@));
    }
}

// ----------------------------------------------------------------------------------------------
// Rows
// ----------------------------------------------------------------------------------------------

/// Whether a text is a random identifier in its hyphenated form: thirty-two hexadecimal numerals in
/// lower case, in groups of eight, four, four, four and twelve, of which the third begins with the
/// version.
pub open spec fn is_file_id(s: Seq<char>) -> bool {
    &&& s.len() == 36
    &&& forall|i: int|
        0 <= i < 36 ==> if i == 8 || i == 13 || i == 18 || i == 23 {
            #[trigger] s[i] == '-'
        } else {
            ('0' <= s[i] && s[i] <= '9') || ('a' <= s[i] && s[i] <= 'f')
        }
    &&& s[14] == '4'
}

/// `Uuid::new_v4` and `Uuid::to_string` of the crate `uuid`: a fresh random identifier in its
/// hyphenated form. That no two are alike is a matter of odds, and is not claimed.
#[verifier::external_body]
fn new_file_id() -> (r: String)
    ensures
        is_file_id(r@),
{
    uuid::Uuid::new_v4().to_string()
}

/// A row to be stored, but for the vector of its chunk.
#[derive(Debug)]
pub struct NewRow {
    pub file_id: String,
    pub filename: String,
    pub physical_path: String,
    pub chunk_text: String,
}

/// Makes a row for each chunk of a file, in the order of the chunks, each under an identifier of
/// its own.
pub fn rows_for(filename: &str, physical_path: &str, chunks: Vec<String>) -> (r: Vec<NewRow>)
    ensures
        r@.len() == chunks@.len(),
        forall|i: int|
            0 <= i < r@.len() ==> (#[trigger] r@[i]).filename@ == filename@ && r@[i].physical_path@
                == physical_path@ && r@[i].chunk_text@ == chunks@[i]@ && is_file_id(r@[i].file_id@),
{
    let n: usize = chunks.len();
    let mut out: Vec<NewRow> = Vec::new();
    let mut i: usize = 0;
    while i < n
        invariant
            i <= n,
            n == chunks@.len(),
            out@.len() == i,
            forall|k: int|
                0 <= k < i ==> (#[trigger] out@[k]).filename@ == filename@ && out@[k].physical_path@
                    == physical_path@ && out@[k].chunk_text@ == chunks@[k]@
                    && is_file_id(out@[k].file_id@),
        decreases n - i,
    {
        out.push(
            NewRow {
                file_id: new_file_id(),
                filename: filename.to_owned(),
                physical_path: physical_path.to_owned(),
                chunk_text: chunks[i].clone(),
            },
        );
        i = i + 1;
    }
    out
}

/// Whether a file system event has the daemon look at a path: something was created or modified,
/// and the path is a file.
pub fn should_ingest(created: bool, modified: bool, is_file: bool) -> (r: bool)
    ensures
        r == ((created || modified) && is_file),
{
    (created || modified) && is_file
}

/// How many times something succeeded.
pub open spec fn successes(outcomes: Seq<bool>) -> nat
    decreases outcomes.len(),
{
    if outcomes.len() == 0 {
        0
    } else {
        successes(outcomes.drop_last()) + if outcomes.last() {
            1nat
        } else {
            0nat
        }
    }
}

/// Every success counts once, and nothing else does.
pub proof fn law_every_success_counts(outcomes: Seq<bool>)
    ensures
        successes(outcomes) == outcomes.filter(|stored: bool| stored).len(),
    decreases outcomes.len(),
{
    reveal(Seq::filter);
    if outcomes.len() > 0 {
        law_every_success_counts(outcomes.drop_last());
    }
}

/// Counts how many of the chunks of a file were stored, by whether each of them was.
pub fn count_stored(outcomes: &Vec<bool>) -> (r: usize)
    ensures
        r == successes(outcomes@),
        r == outcomes@.filter(|stored: bool| stored).len(),
{
    proof {
        law_every_success_counts(outcomes@);
    }
    let n: usize = outcomes.len();
    let mut count: usize = 0;
    let mut i: usize = 0;
    while i < n
        invariant
            i <= n,
            n == outcomes@.len(),
            count <= i,
            count == successes(outcomes@.take(i as int)),
        decreases n - i,
    {
        assert(outcomes@.take(i + 1).drop_last() =~= outcomes@.take(i as int));
        if outcomes[i] {
            count = count + 1;
        }
        i = i + 1;
    }
    assert(outcomes@.take(n as int) =~= outcomes@);
    count
}

/// What the daemon reports of a file, by how many of its chunks were stored.
pub open spec fn ingest_report(filename: Seq<char>, stored: nat) -> Seq<char> {
    "📄  Ingested "@ + filename + " → "@ + numeral(stored) + " chunk(s)"@
}

/// What the daemon reports of a file, by how many of its chunks were stored.
pub fn report_ingested(filename: &str, stored: usize) -> (r: String)
    ensures
        r@ == ingest_report(filename@, stored as nat),
        r@ == "📄  Ingested "@ + filename@ + " → "@ + numeral(stored as nat) + " chunk(s)"@,
{
    let mut out: String = concat3("📄  Ingested ", filename, " → ");
    out.append(decimal(stored as u64).as_str());
    out.append(" chunk(s)");
    out
}

} // verus!
