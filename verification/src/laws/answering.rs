//! What is promised of answers: of the prompt that is sent, and of the reply that is read.
use vstd::prelude::*;

use crate::mcp::AskCall;
use crate::rag::{
    answer_in, build_context, build_prompt, byte_rows, generate_url, law_answers_end_with_the_first_end,
    law_each_piece_adds_its_answer, law_every_chunk_is_in_the_context, law_every_readable_line_is_said, law_lines_are_given_when_they_are_whole,
    law_lines_end_at_breaks, law_lines_lose_only_breaks, law_prompts_hold_context_and_question, read_answer, send_error,
    split_lines, streamed, tags_url, AnswerStream, Asker, LineBuffer, OllamaError, StreamChunk,
};
use crate::reranker::Row;
use crate::text::{law_trimming_an_end_takes_every_copy, numeral, texts};

verus! {

/// What is read of lines that were all readable, none of which but the last ends the answer, has one
/// piece for each line: what that line responds, whatever its characters.
pub proof fn law_every_line_is_read(
    parsed: &Vec<Option<StreamChunk>>,
    r: (Vec<String>, bool),
)
    requires
        call_ensures(read_answer, (parsed,), r),
        forall|i: int| 0 <= i < parsed@.len() ==> (#[trigger] parsed@[i]) is Some,
        forall|i: int| 0 <= i < parsed@.len() - 1 ==> !(#[trigger] parsed@[i])->0.done,
    ensures
        r.0@.len() == parsed@.len(),
        forall|i: int|
            #![trigger r.0@[i]]
            0 <= i < parsed@.len() ==> r.0@[i]@ == parsed@[i]->0.response@,
        r.1 <==> parsed@.len() > 0 && parsed@.last()->0.done,
{
    law_every_readable_line_is_said(parsed@);
    assert(texts(r.0@).len() == r.0@.len());
    assert forall|i: int|
        #![trigger r.0@[i]]
        0 <= i < parsed@.len() implies r.0@[i]@ == parsed@[i]->0.response@ by {
        assert(texts(r.0@)[i] == r.0@[i]@);
    }
    if parsed@.len() > 0 {
        assert(parsed@[parsed@.len() - 1] is Some);
    }
}

/// What is read of any lines is what those respond that could be read, in order and each as it is, up
/// to and with the first that ends the answer.
pub proof fn law_reading_stops_behind_the_end(
    parsed: &Vec<Option<StreamChunk>>,
    r: (Vec<String>, bool),
    n: int,
)
    requires
        call_ensures(read_answer, (parsed,), r),
        0 <= n <= parsed@.len(),
        forall|i: int|
            0 <= i < n - 1 ==> !((#[trigger] parsed@[i]) is Some && parsed@[i]->0.done),
        n < parsed@.len() ==> n > 0 && parsed@[n - 1] is Some && parsed@[n - 1]->0.done,
    ensures
        r.0@.map_values(|s: String| s@) == parsed@.take(n).filter(
            |l: Option<StreamChunk>| l is Some,
        ).map_values(|l: Option<StreamChunk>| l->0.response@),
{
    law_answers_end_with_the_first_end(parsed@, n);
    assert(r.0@.map_values(|s: String| s@) =~= texts(r.0@));
}

/// A line that could not be read makes no difference, wherever it stands.
pub proof fn law_unreadable_lines_make_no_difference(
    parsed: &Vec<Option<StreamChunk>>,
    r: (Vec<String>, bool),
    other: &Vec<Option<StreamChunk>>,
    s: (Vec<String>, bool),
    at: int,
)
    requires
        call_ensures(read_answer, (parsed,), r),
        call_ensures(read_answer, (other,), s),
        0 <= at < parsed@.len(),
        parsed@[at] is None,
        other@ == parsed@.remove(at),
    ensures
        r.0@.map_values(|t: String| t@) == s.0@.map_values(|t: String| t@),
        r.1 == s.1,
{
    assert(r.0@.map_values(|t: String| t@) =~= texts(r.0@));
    assert(s.0@.map_values(|t: String| t@) =~= texts(s.0@));
    lemma_unreadable_line(parsed@, at);
    if r.1 {
        let i = choose|i: int|
            0 <= i < parsed@.len() && (#[trigger] parsed@[i]) is Some && parsed@[i]->0.done;
        let k = if i < at {
            i
        } else {
            i - 1
        };
        assert(other@[k] == parsed@[i]);
    }
    if s.1 {
        let k = choose|k: int|
            0 <= k < other@.len() && (#[trigger] other@[k]) is Some && other@[k]->0.done;
        let i = if k < at {
            k
        } else {
            k + 1
        };
        assert(parsed@[i] == other@[k]);
    }
}

proof fn lemma_unreadable_line(lines: Seq<Option<StreamChunk>>, at: int)
    requires
        0 <= at < lines.len(),
        lines[at] is None,
    ensures
        crate::rag::answer_in(lines) == crate::rag::answer_in(lines.remove(at)),
    decreases lines.len(),
{
    let less = lines.remove(at);
    if at == 0 {
        assert(less =~= lines.drop_first());
    } else {
        assert(less.first() == lines.first());
        assert(less.drop_first() =~= lines.drop_first().remove(at - 1));
        assert(lines.drop_first()[at - 1] == lines[at]);
        lemma_unreadable_line(lines.drop_first(), at - 1);
    }
}

/// Splitting into lines loses no byte but the line feeds; no line is empty, and none holds a line
/// feed. Bytes without a line feed are one line.
pub proof fn law_bytes_are_split_at_breaks(bytes: &[u8], r: Vec<Vec<u8>>)
    requires
        call_ensures(split_lines, (bytes,), r),
    ensures
        r@.map_values(|line: Vec<u8>| line@).flatten() == bytes@.filter(|b: u8| b != 10),
        forall|i: int|
            #![trigger r@[i]]
            0 <= i < r@.len() ==> r@[i]@.len() > 0 && !r@[i]@.contains(10u8),
        bytes@.len() > 0 && !bytes@.contains(10u8) ==> r@.len() == 1 && r@[0]@ == bytes@,
{
    assert(r@.map_values(|line: Vec<u8>| line@) =~= byte_rows(r@));
    assert(byte_rows(r@).len() == r@.len());
    law_lines_lose_only_breaks(bytes@);
    assert forall|i: int|
        #![trigger r@[i]]
        0 <= i < r@.len() implies r@[i]@.len() > 0 && !r@[i]@.contains(10u8) by {
        crate::rag::law_lines_are_whole(bytes@, i);
        assert(byte_rows(r@)[i] == r@[i]@);
    }
    if bytes@.len() > 0 && !bytes@.contains(10u8) {
        assert(byte_rows(r@)[0] == r@[0]@);
    }
}

/// Bytes that are cut at a line feed have the lines of the two parts, those of the first before those
/// of the second.
pub proof fn law_lines_follow_each_other(
    bytes: &[u8],
    r: Vec<Vec<u8>>,
    first: &[u8],
    s: Vec<Vec<u8>>,
    second: &[u8],
    t: Vec<Vec<u8>>,
)
    requires
        call_ensures(split_lines, (bytes,), r),
        call_ensures(split_lines, (first,), s),
        call_ensures(split_lines, (second,), t),
        bytes@ == first@ + seq![10u8] + second@,
    ensures
        r@.len() == s@.len() + t@.len(),
        forall|i: int| #![trigger s@[i]] 0 <= i < s@.len() ==> r@[i]@ == s@[i]@,
        forall|i: int| #![trigger t@[i]] 0 <= i < t@.len() ==> r@[s@.len() + i]@ == t@[i]@,
{
    law_lines_end_at_breaks(first@, second@);
    assert(byte_rows(r@).len() == r@.len());
    assert(byte_rows(s@).len() == s@.len());
    assert(byte_rows(t@).len() == t@.len());
    assert forall|i: int| #![trigger s@[i]] 0 <= i < s@.len() implies r@[i]@ == s@[i]@ by {
        assert(byte_rows(r@)[i] == byte_rows(s@)[i]);
    }
    assert forall|i: int| #![trigger t@[i]] 0 <= i < t@.len() implies r@[s@.len() + i]@
        == t@[i]@ by {
        assert(byte_rows(r@)[s@.len() + i] == byte_rows(t@)[i]);
    }
}

/// Without chunks the context is empty. With one chunk more it has one block more behind the others,
/// with a rule between: the number of the chunk, the whole name of its file, and the whole chunk.
pub proof fn law_context_holds_every_chunk(
    chunks: &Vec<Row>,
    r: String,
    more: &Vec<Row>,
    s: String,
)
    requires
        call_ensures(build_context, (chunks,), r),
        call_ensures(build_context, (more,), s),
        more@.len() == chunks@.len() + 1,
        more@.drop_last() == chunks@,
    ensures
        chunks@.len() == 0 ==> r@ == Seq::<char>::empty(),
        chunks@.len() == 0 ==> s@ == "[Source "@ + numeral(1) + "] ("@ + more@.last().0@ + ")\n"@
            + more@.last().2@,
        chunks@.len() > 0 ==> s@ == r@ + "\n\n---\n\n"@ + ("[Source "@ + numeral(more@.len())
            + "] ("@ + more@.last().0@ + ")\n"@ + more@.last().2@),
{
    law_every_chunk_is_in_the_context(chunks@, more@.last());
    assert(chunks@.push(more@.last()) =~= more@);
    assert(chunks@.len() == 0 ==> chunks@ =~= Seq::<Row>::empty());
}

/// A prompt is what the model is told, the context of the chunks, and the whole question, in this
/// order, for whoever asks.
pub proof fn law_prompts_are_written_in_full(
    asker: Asker,
    question: &str,
    chunks: &Vec<Row>,
    context: String,
    r: String,
)
    requires
        call_ensures(build_context, (chunks,), context),
        call_ensures(build_prompt, (asker, question, chunks), r),
    ensures
        r@ == (match asker {
            Asker::Terminal =>
                "You are a helpful assistant with access to the user's local files.\nUse ONLY the provided context to answer. If the answer is not in the context, say so clearly."@,
            Asker::Agent =>
                "You are a helpful assistant with access to the user's local files.\nUse ONLY the provided context. If the answer is not present, say so."@,
            Asker::Web => "You are a helpful assistant. Use ONLY the context below to answer."@,
        }) + "\n\nCONTEXT:\n"@ + context@ + "\n\nQUESTION: "@ + question@ + "\n\nANSWER:"@,
{
    law_prompts_hold_context_and_question(question@, chunks@);
}

/// The address of a request is the base address without the slashes at its end, and the path.
pub proof fn law_addresses_have_one_slash(
    base: &str,
    r: String,
    s: String,
    stem: Seq<char>,
    slashes: nat,
)
    requires
        call_ensures(generate_url, (base,), r),
        call_ensures(tags_url, (base,), s),
        base@ == stem + Seq::new(slashes, |i: int| '/'),
        stem.len() > 0 ==> stem.last() != '/',
    ensures
        r@ == stem + "/api/generate"@,
        s@ == stem + "/api/tags"@,
{
    let end = law_trimming_an_end_takes_every_copy(base@, '/');
    let n = stem.len() as int;
    if end > n {
        assert(base@[end - 1] == '/');
    }
    if end < n {
        assert(base@[n - 1] == stem.last());
    }
    assert(base@.subrange(0, end) =~= stem);
}

/// A request that could not be sent failed by its connection or otherwise, and is told with where it
/// went, for which model, and the whole cause.
pub proof fn law_failed_requests_are_told_in_full(
    connect: bool,
    url: String,
    model: String,
    cause: String,
    r: OllamaError,
    told: String,
)
    requires
        call_ensures(send_error, (connect, url, model, cause), r),
        call_ensures(OllamaError::message, (&r,), told),
    ensures
        connect ==> told@ == "Cannot reach Ollama at "@ + url@
            + ".\nInstall  : https://ollama.com\nThen run : ollama pull "@ + model@
            + "\nThen run : ollama serve\nError    : "@ + cause@,
        !connect ==> told@ == "Ollama request failed: "@ + cause@,
{
}

/// A reply that is no success is told with its status and its whole body.
pub proof fn law_refusals_are_told_in_full(status: String, body: String, told: String)
    requires
        call_ensures(OllamaError::message, (&OllamaError::Status { status, body },), told),
    ensures
        told@ == "Ollama returned HTTP "@ + status@ + ": "@ + body@,
{
}

/// The lines that were given of a stream, with those that are given at its end, are all its lines:
/// none is lost and none is given twice.
pub proof fn law_streams_give_all_their_lines(
    buffer: LineBuffer,
    r: Vec<Vec<u8>>,
    all: &[u8],
    whole: Vec<Vec<u8>>,
)
    requires
        call_ensures(LineBuffer::finish, (buffer,), r),
        all@ == buffer.fed(),
        call_ensures(split_lines, (all,), whole),
    ensures
        buffer.given() + r@.map_values(|line: Vec<u8>| line@) == whole@.map_values(
            |line: Vec<u8>| line@,
        ),
{
    assert(r@.map_values(|line: Vec<u8>| line@) =~= byte_rows(r@));
    assert(whole@.map_values(|line: Vec<u8>| line@) =~= byte_rows(whole@));
}

/// Only the web page reads no further, and exactly once a line that ended the answer came in.
pub proof fn law_only_the_web_page_stops(stream: &AnswerStream, over: bool)
    requires
        call_ensures(AnswerStream::is_over, (stream,), over),
    ensures
        over <==> stream.asker() == Asker::Web && exists|i: int, k: int|
            0 <= i < stream.pieces().len() && 0 <= k < stream.pieces()[i].len() && (
            #[trigger] stream.pieces()[i][k]) is Some && stream.pieces()[i][k]->0.done,
{
    law_each_piece_adds_its_answer(stream.asker(), stream.pieces(), Seq::empty());
}

/// A piece of the stream is taken in whole, and of it those lines are given whose line feeds came in
/// with it: behind all that were given before, the lines up to the last line feed so far.
pub proof fn law_pieces_give_the_lines_they_end(
    buffer: &mut LineBuffer,
    piece: &[u8],
    r: Vec<Vec<u8>>,
    head: Seq<u8>,
    tail: Seq<u8>,
    all: &[u8],
    whole: Vec<Vec<u8>>,
)
    requires
        call_ensures(LineBuffer::feed, (buffer, piece), r),
        old(buffer).fed() + piece@ == head + seq![10u8] + tail,
        !tail.contains(10u8),
        all@ == head,
        call_ensures(split_lines, (all,), whole),
    ensures
        final(buffer).fed() == old(buffer).fed() + piece@,
        old(buffer).given() + r@.map_values(|line: Vec<u8>| line@) == whole@.map_values(
            |line: Vec<u8>| line@,
        ),
{
    law_lines_are_given_when_they_are_whole(*final(buffer), head, tail);
    assert(r@.map_values(|line: Vec<u8>| line@) =~= byte_rows(r@));
    assert(whole@.map_values(|line: Vec<u8>| line@) =~= byte_rows(whole@));
}

/// What a piece adds to an answer is what its lines respond that could be read, in order and each as it
/// is, up to and with the first that ends the answer. It adds nothing only where the web page reads
/// and the answer has ended in an earlier piece.
pub proof fn law_pieces_add_what_their_lines_say(
    stream: &mut AnswerStream,
    parsed: &Vec<Option<StreamChunk>>,
    r: Vec<String>,
    n: int,
)
    requires
        call_ensures(AnswerStream::take, (stream, parsed), r),
        0 <= n <= parsed@.len(),
        forall|i: int|
            0 <= i < n - 1 ==> !((#[trigger] parsed@[i]) is Some && parsed@[i]->0.done),
        n < parsed@.len() ==> n > 0 && parsed@[n - 1] is Some && parsed@[n - 1]->0.done,
    ensures
        final(stream).asker() == old(stream).asker(),
        final(stream).pieces() == old(stream).pieces() + seq![parsed@],
        old(stream).asker() != Asker::Web || (forall|i: int, k: int|
            0 <= i < old(stream).pieces().len() && 0 <= k < old(stream).pieces()[i].len() && (
            #[trigger] old(stream).pieces()[i][k]) is Some ==> !old(stream).pieces()[i][k]->0.done)
            ==> r@.map_values(|s: String| s@) == parsed@.take(n).filter(
            |l: Option<StreamChunk>| l is Some,
        ).map_values(|l: Option<StreamChunk>| l->0.response@),
        old(stream).asker() == Asker::Web && (exists|i: int, k: int|
            0 <= i < old(stream).pieces().len() && 0 <= k < old(stream).pieces()[i].len() && (
            #[trigger] old(stream).pieces()[i][k]) is Some && old(stream).pieces()[i][k]->0.done)
            ==> r@.len() == 0,
{
    let asker = old(stream).asker();
    let before = old(stream).pieces();
    law_each_piece_adds_its_answer(asker, before, parsed@);
    law_answers_end_with_the_first_end(parsed@, n);
    assert(r@.map_values(|s: String| s@) =~= texts(r@));
    let said = streamed(asker, before);
    let now = streamed(asker, before.push(parsed@));
    assert(now == said + texts(r@));
    assert(texts(r@) =~= now.skip(said.len() as int));
    if now == said + answer_in(parsed@) {
        assert(answer_in(parsed@) =~= now.skip(said.len() as int));
    }
    assert(texts(r@).len() == r@.len());
}

/// A stream starts with nothing that came in and nothing that was given.
pub proof fn law_streams_start_empty(asker: Asker, buffer: LineBuffer, stream: AnswerStream)
    requires
        call_ensures(LineBuffer::new, (), buffer),
        call_ensures(AnswerStream::new, (asker,), stream),
    ensures
        buffer.fed().len() == 0,
        buffer.given().len() == 0,
        stream.asker() == asker,
        stream.pieces().len() == 0,
{
}

/// An agent and the web page have their questions asked in their own prompts, over all that was found.
pub proof fn law_questions_are_asked_in_their_prompts(
    call: &AskCall,
    question: &str,
    chunks: &Vec<Row>,
    for_agent: String,
    of_agent: String,
    for_web: String,
    of_web: String,
)
    requires
        question@ == call.question@,
        call_ensures(build_prompt, (Asker::Agent, question, chunks), for_agent),
        call_ensures(crate::mcp::ask_prompt, (call, chunks), of_agent),
        call_ensures(build_prompt, (Asker::Web, question, chunks), for_web),
        call_ensures(crate::server::ask_prompt, (question, chunks), of_web),
    ensures
        of_agent@ == for_agent@,
        of_web@ == for_web@,
{
}

} // verus!
