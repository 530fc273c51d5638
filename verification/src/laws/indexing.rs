//! What is promised of ingestion: of kinds of files, their text, and the chunks that it is cut into.
use vstd::prelude::*;
use vstd::utf8::{decode_utf8, encode_utf8, valid_utf8};

use crate::ingest::{
    chunk_text, chunk_text_by, chunked, count_stored, extract_text, file_kind,
    law_chunks_hold_their_words, law_chunks_overlap, law_extracted_texts_are_kept,
    law_only_listed_extensions_are_binary, law_read_files_keep_their_text,
    law_single_spaced_texts_are_their_own_chunk, law_words_lose_only_whitespace, report_ingested,
    rows_for, should_ingest, words_of, FileContent, FileKind, NewRow,
};
use crate::text::{joined, lowercase, numeral, texts, white_space};

verus! {

// ----------------------------------------------------------------------------------------------
// Ingestion
// ----------------------------------------------------------------------------------------------

/// The kind of a file goes by its extension in any case. It is binary for fourteen extensions and no
/// others, that of a PDF for one, and plain for every other, those of source code and data among
/// them. Extensions with one lower-case form have one kind.
pub proof fn law_kinds_go_by_the_extension(
    extension: &str,
    kind: FileKind,
    other: &str,
    other_kind: FileKind,
)
    requires
        call_ensures(file_kind, (extension,), kind),
        call_ensures(file_kind, (other,), other_kind),
    ensures
        kind == FileKind::Binary <==> set![
            "jpg"@,
            "jpeg"@,
            "png"@,
            "gif"@,
            "exe"@,
            "dll"@,
            "so"@,
            "dylib"@,
            "zip"@,
            "tar"@,
            "gz"@,
            "bin"@,
            "class"@,
            "pyc"@,
        ].contains(lowercase(extension@)),
        kind == FileKind::Pdf <==> lowercase(extension@) == "pdf"@,
        set!["py"@, "rs"@, "csv"@, "json"@, "html"@, "txt"@, "md"@, ""@].contains(
            lowercase(extension@),
        ) ==> kind == FileKind::Plain,
        lowercase(extension@) == lowercase(other@) ==> kind == other_kind,
{
    law_only_listed_extensions_are_binary(lowercase(extension@));
}

/// The text to be indexed of a file that was read is all of the text that its bytes encode. There is
/// one exactly where no zero is among the first 1024 bytes, the bytes encode a text, and not all of
/// its characters are whitespace.
pub proof fn law_text_files_are_indexed_whole(bytes: Vec<u8>, r: Option<String>)
    requires
        call_ensures(extract_text, (FileContent::Plain(Some(bytes)),), r),
    ensures
        r is Some ==> encode_utf8(r->0@) == bytes@,
        r is Some <==> {
            &&& forall|i: int| 0 <= i < bytes@.len() && i < 1024 ==> #[trigger] bytes@[i] != 0
            &&& valid_utf8(bytes@)
            &&& exists|i: int|
                0 <= i < decode_utf8(bytes@).len() && !white_space(
                    #[trigger] decode_utf8(bytes@)[i],
                )
        },
{
    law_read_files_keep_their_text(bytes, decode_utf8(bytes@));
    if r is Some {
        law_read_files_keep_their_text(bytes, r->0@);
    }
}

/// The text to be indexed of a PDF is all of the text that was extracted from it, unless all of its
/// characters are whitespace.
pub proof fn law_pdf_texts_are_indexed_whole(text: String, r: Option<String>)
    requires
        call_ensures(extract_text, (FileContent::Pdf(Some(text)),), r),
    ensures
        r is Some ==> r->0@ == text@,
        r is Some <==> exists|i: int| 0 <= i < text@.len() && !white_space(#[trigger] text@[i]),
{
    law_extracted_texts_are_kept(text);
}

/// Nothing is indexed of a file of a binary format, nor of one that could not be read.
pub proof fn law_unreadable_files_have_no_text(content: FileContent, r: Option<String>)
    requires
        call_ensures(extract_text, (content,), r),
        content is Binary || content == FileContent::Pdf(None) || content == FileContent::Plain(
            None,
        ),
    ensures
        r is None,
{
}

proof fn lemma_joined_with_spaces(words: Seq<Seq<char>>)
    requires
        words.len() > 0,
    ensures
        joined(words, " "@) == words.skip(1).fold_left(
            words[0],
            |all: Seq<char>, word: Seq<char>| all + seq![' '] + word,
        ),
    decreases words.len(),
{
    reveal_strlit(" ");
    assert(" "@ =~= seq![' ']);
    let put = |all: Seq<char>, word: Seq<char>| all + seq![' '] + word;
    if words.len() > 1 {
        let front = words.drop_last();
        lemma_joined_with_spaces(front);
        assert(words.skip(1).drop_last() =~= front.skip(1));
        assert(words.skip(1).last() == words.last());
        assert(words.skip(1).fold_left(words[0], put) == put(
            words.skip(1).drop_last().fold_left(words[0], put),
            words.last(),
        ));
    } else {
        assert(words.skip(1).len() == 0);
    }
}

/// What is known of a chunk that the words of a text are cut into.
proof fn lemma_chunk(text: Seq<char>, chunk: nat, overlap: nat, k: int)
    requires
        overlap < chunk,
        0 <= k,
    ensures
        ({
            let words = words_of(text);
            let chunks = chunked(words, chunk, overlap);
            let put = |all: Seq<char>, word: Seq<char>| all + seq![' '] + word;
            let start = k * (chunk - overlap);
            let end = if start + chunk < words.len() {
                start + chunk
            } else {
                words.len() as int
            };
            &&& chunks.len() > 0 <==> words.len() > 0
            &&& k < chunks.len() ==> {
                &&& k + 1 < chunks.len() <==> start + chunk < words.len()
                &&& 0 <= start < end <= words.len()
                &&& chunks[k] == words.subrange(start + 1, end).fold_left(words[start], put)
            }
        }),
{
    let words = words_of(text);
    let chunks = chunked(words, chunk, overlap);
    law_chunks_hold_their_words(text, chunk, overlap, k);
    if k < chunks.len() {
        law_chunks_overlap(words.len(), chunk, overlap, k);
        let start = k * (chunk - overlap);
        let end = if start + chunk < words.len() {
            start + chunk
        } else {
            words.len() as int
        };
        let window = words.subrange(start, end);
        lemma_joined_with_spaces(window);
        assert(window.skip(1) =~= words.subrange(start + 1, end));
        assert(window[0] == words[start]);
    }
}

/// A text is cut into chunks of two hundred words each, the last of fewer at most, and each starts
/// one hundred and fifty words behind the start of the one before it. In a chunk the words follow
/// each other with one space between. The words are the stretches between whitespace, and put
/// together they are all characters of the text but its whitespace.
pub proof fn law_texts_are_cut_into_chunks(text: &str, chunks: Vec<String>) -> (words: Seq<
    Seq<char>,
>)
    requires
        call_ensures(chunk_text, (text,), chunks),
    ensures
        words.flatten() == text@.filter(|c: char| !white_space(c)),
        forall|i: int|
            0 <= i < words.len() ==> exists|from: int, to: int|
                0 <= from < to <= text@.len() && #[trigger] text@.subrange(from, to)
                    == #[trigger] words[i] && (from == 0 || white_space(text@[from - 1])) && (to
                    == text@.len() || white_space(text@[to])),
        forall|i: int, c: int|
            0 <= i < words.len() && 0 <= c < words[i].len() ==> !white_space(#[trigger] words[i][c]),
        chunks@.len() > 0 <==> words.len() > 0,
        ({
            let put = |all: Seq<char>, word: Seq<char>| all + seq![' '] + word;
            forall|k: int|
                #![trigger chunks@[k]]
                0 <= k < chunks@.len() ==> {
                    let start = k * 150;
                    let end = if start + 200 < words.len() {
                        start + 200
                    } else {
                        words.len() as int
                    };
                    &&& k + 1 < chunks@.len() <==> start + 200 < words.len()
                    &&& 0 <= start < end <= words.len()
                    &&& chunks@[k]@ == words.subrange(start + 1, end).fold_left(words[start], put)
                }
        }),
{
    let words = words_of(text@);
    let at = law_words_lose_only_whitespace(text@);
    assert forall|i: int| 0 <= i < words.len() implies exists|from: int, to: int|
        0 <= from < to <= text@.len() && #[trigger] text@.subrange(from, to) == #[trigger] words[i]
            && (from == 0 || white_space(text@[from - 1])) && (to == text@.len() || white_space(
            text@[to],
        )) by {
        let p = at[i];
        assert(text@.subrange(p.0, p.1) == words[i]);
    }
    assert forall|i: int, c: int|
        0 <= i < words.len() && 0 <= c < words[i].len() implies !white_space(
        #[trigger] words[i][c],
    ) by {
        let p = at[i];
        assert(words[i][c] == text@[p.0 + c]);
    }
    let put = |all: Seq<char>, word: Seq<char>| all + seq![' '] + word;
    assert(texts(chunks@).len() == chunks@.len());
    lemma_chunk(text@, 200, 50, 0);
    assert forall|k: int|
        #![trigger chunks@[k]]
        0 <= k < chunks@.len() implies {
        let start = k * 150;
        let end = if start + 200 < words.len() {
            start + 200
        } else {
            words.len() as int
        };
        &&& k + 1 < chunks@.len() <==> start + 200 < words.len()
        &&& 0 <= start < end <= words.len()
        &&& chunks@[k]@ == words.subrange(start + 1, end).fold_left(words[start], put)
    } by {
        lemma_chunk(text@, 200, 50, k);
        assert(texts(chunks@)[k] == chunks@[k]@);
    }
    words
}

/// By settings of other lengths a text is cut in the same way, and not at all where the chunks would
/// share all of their words or more.
pub proof fn law_texts_are_cut_as_the_settings_say(
    text: &str,
    chunk: usize,
    overlap: usize,
    r: Option<Vec<String>>,
    k: int,
) -> (words: Seq<Seq<char>>)
    requires
        call_ensures(chunk_text_by, (text, chunk, overlap), r),
        0 <= k,
    ensures
        r is None <==> overlap >= chunk,
        words.flatten() == text@.filter(|c: char| !white_space(c)),
        forall|i: int|
            0 <= i < words.len() ==> exists|from: int, to: int|
                0 <= from < to <= text@.len() && #[trigger] text@.subrange(from, to)
                    == #[trigger] words[i] && (from == 0 || white_space(text@[from - 1])) && (to
                    == text@.len() || white_space(text@[to])),
        r is Some ==> (r->0@.len() > 0 <==> words.len() > 0),
        ({
            let put = |all: Seq<char>, word: Seq<char>| all + seq![' '] + word;
            let start = k * (chunk - overlap);
            let end = if start + chunk < words.len() {
                start + chunk
            } else {
                words.len() as int
            };
            r is Some && k < r->0@.len() ==> {
                &&& k + 1 < r->0@.len() <==> start + chunk < words.len()
                &&& 0 <= start < end <= words.len()
                &&& r->0@[k]@ == words.subrange(start + 1, end).fold_left(words[start], put)
            }
        }),
{
    let words = words_of(text@);
    let at = law_words_lose_only_whitespace(text@);
    assert forall|i: int| 0 <= i < words.len() implies exists|from: int, to: int|
        0 <= from < to <= text@.len() && #[trigger] text@.subrange(from, to) == #[trigger] words[i]
            && (from == 0 || white_space(text@[from - 1])) && (to == text@.len() || white_space(
            text@[to],
        )) by {
        let p = at[i];
        assert(text@.subrange(p.0, p.1) == words[i]);
    }
    if r is Some {
        let chunks = r->0;
        assert(texts(chunks@).len() == chunks@.len());
        lemma_chunk(text@, chunk as nat, overlap as nat, k);
        if k < chunks@.len() {
            assert(texts(chunks@)[k] == chunks@[k]@);
        }
    }
    words
}

/// A text whose only whitespace is single spaces between its words, two hundred of these at most, is
/// its own only chunk.
pub proof fn law_short_texts_are_left_whole(text: &str, chunks: Vec<String>)
    requires
        call_ensures(chunk_text, (text,), chunks),
        text@.len() > 0,
        !white_space(text@[0]),
        !white_space(text@.last()),
        forall|i: int| 0 <= i < text@.len() && white_space(#[trigger] text@[i]) ==> text@[i] == ' ',
        forall|i: int, j: int|
            0 <= i < text@.len() && j == i + 1 && white_space(#[trigger] text@[i]) ==> !white_space(
                #[trigger] text@[j],
            ),
        text@.filter(|c: char| c == ' ').len() < 200,
    ensures
        chunks@.len() == 1,
        chunks@[0]@ == text@,
{
    law_single_spaced_texts_are_their_own_chunk(text@, 200, 50);
    assert(texts(chunks@).len() == chunks@.len());
    assert(texts(chunks@)[0] == chunks@[0]@);
}

/// There is one row for each chunk, in order, with the whole chunk and the name and the path of the
/// file.
pub proof fn law_every_chunk_has_its_row(
    name: &str,
    path: &str,
    chunks: Vec<String>,
    rows: Vec<NewRow>,
)
    requires
        call_ensures(rows_for, (name, path, chunks), rows),
    ensures
        rows@.len() == chunks@.len(),
        forall|i: int|
            #![trigger rows@[i]]
            0 <= i < rows@.len() ==> rows@[i].chunk_text@ == chunks@[i]@ && rows@[i].filename@
                == name@ && rows@[i].physical_path@ == path@ && rows@[i].file_id@.len() == 36,
{
}

/// The daemon looks at files, and only at those that were created or modified.
pub proof fn law_new_and_changed_files_are_looked_at(
    created: bool,
    modified: bool,
    is_file: bool,
    r: bool,
)
    requires
        call_ensures(should_ingest, (created, modified, is_file), r),
    ensures
        is_file && created ==> r,
        is_file && modified ==> r,
        !is_file ==> !r,
        !created && !modified ==> !r,
{
}

/// Every chunk that was stored is counted, and the count and the whole name are reported.
pub proof fn law_stored_chunks_are_counted_and_reported(
    outcomes: &Vec<bool>,
    stored: usize,
    name: &str,
    report: String,
)
    requires
        call_ensures(count_stored, (outcomes,), stored),
        call_ensures(report_ingested, (name, stored), report),
    ensures
        stored == outcomes@.filter(|stored: bool| stored).len(),
        report@ == "📄  Ingested "@ + name@ + " → "@ + numeral(
            outcomes@.filter(|stored: bool| stored).len(),
        ) + " chunk(s)"@,
{
}

} // verus!
