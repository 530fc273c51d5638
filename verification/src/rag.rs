//! Answers from the user's own files: what is asked of Ollama, and what is read of its reply.
use vstd::prelude::*;

use crate::reranker::Row;
use crate::text::{
    concat2, decimal, join, joined, numeral, texts, trim_end_of, trimmed_end_of,
};

verus! {

// ----------------------------------------------------------------------------------------------
// The prompt
// ----------------------------------------------------------------------------------------------

/// A retrieved chunk under its number and the name of its file.
pub open spec fn source_block(number: nat, filename: Seq<char>, chunk: Seq<char>) -> Seq<char> {
    "[Source "@ + numeral(number) + "] ("@ + filename + ")\n"@ + chunk
}

/// The retrieved chunks, numbered from one, with a rule between each two of them.
pub open spec fn context_of(chunks: Seq<Row>) -> Seq<char> {
    joined(
        Seq::new(
            chunks.len(),
            |i: int| source_block((i + 1) as nat, chunks[i].0@, chunks[i].2@),
        ),
        "\n\n---\n\n"@,
    )
}

fn write_block(number: u64, filename: &str, chunk: &str) -> (r: String)
    ensures
        r@ == source_block(number as nat, filename@, chunk@),
{
    let mut out: String = concat2("[Source ", decimal(number).as_str());
    out.append("] (");
    out.append(filename);
    out.append(")\n");
    out.append(chunk);
    out
}

/// Writes the retrieved chunks as the context of a question.
pub fn build_context(chunks: &Vec<Row>) -> (r: String)
    ensures
        r@ == context_of(chunks@),
{
    let n: usize = chunks.len();
    let mut blocks: Vec<String> = Vec::new();
    let mut i: usize = 0;
    let ghost all = Seq::new(
        chunks@.len(),
        |i: int| source_block((i + 1) as nat, chunks@[i].0@, chunks@[i].2@),
    );
    while i < n
        invariant
            i <= n,
            n == chunks@.len(),
            all == Seq::new(
                chunks@.len(),
                |i: int| source_block((i + 1) as nat, chunks@[i].0@, chunks@[i].2@),
            ),
            texts(blocks@) =~= all.take(i as int),
        decreases n - i,
    {
        let ghost before = texts(blocks@);
        let block: String = write_block(
            i as u64 + 1,
            chunks[i].0.as_str(),
            chunks[i].2.as_str(),
        );
        blocks.push(block);
        assert(texts(blocks@) =~= before.push(block@));
        i = i + 1;
    }
    assert(all.take(n as int) =~= all);
    join(&blocks, "\n\n---\n\n")
}

/// Where a question comes from.
#[derive(Clone, Copy, PartialEq, Eq, Structural, Debug)]
pub enum Asker {
    /// The terminal.
    Terminal,
    /// An agent that calls a tool.
    Agent,
    /// The web page.
    Web,
}

impl Asker {
    /// What the model is told before the context.
    pub open spec fn instructions(self) -> Seq<char> {
        match self {
            Asker::Terminal =>
                "You are a helpful assistant with access to the user's local files.\nUse ONLY the provided context to answer. If the answer is not in the context, say so clearly."@,
            Asker::Agent =>
                "You are a helpful assistant with access to the user's local files.\nUse ONLY the provided context. If the answer is not present, say so."@,
            Asker::Web =>
                "You are a helpful assistant. Use ONLY the context below to answer."@,
        }
    }

    fn instructions_str(self) -> (r: &'static str)
        ensures
            r@ == self.instructions(),
    {
        match self {
            Asker::Terminal =>
                "You are a helpful assistant with access to the user's local files.\nUse ONLY the provided context to answer. If the answer is not in the context, say so clearly.",
            Asker::Agent =>
                "You are a helpful assistant with access to the user's local files.\nUse ONLY the provided context. If the answer is not present, say so.",
            Asker::Web => "You are a helpful assistant. Use ONLY the context below to answer.",
        }
    }
}

/// The prompt for a question over the retrieved chunks.
pub open spec fn prompt_for(asker: Asker, question: Seq<char>, chunks: Seq<Row>) -> Seq<char> {
    asker.instructions() + "\n\nCONTEXT:\n"@ + context_of(chunks) + "\n\nQUESTION: "@ + question
        + "\n\nANSWER:"@
}

/// Writes the prompt for a question over the retrieved chunks.
pub fn build_prompt(asker: Asker, question: &str, chunks: &Vec<Row>) -> (r: String)
    ensures
        r@ == prompt_for(asker, question@, chunks@),
{
    let mut out: String = concat2(asker.instructions_str(), "\n\nCONTEXT:\n");
    out.append(build_context(chunks).as_str());
    out.append("\n\nQUESTION: ");
    out.append(question);
    out.append("\n\nANSWER:");
    out
}

// ----------------------------------------------------------------------------------------------
// Addresses and messages
// ----------------------------------------------------------------------------------------------

/// Where Ollama generates text, by its base address with or without slashes at its end.
pub fn generate_url(ollama_url: &str) -> (r: String)
    ensures
        r@ == trimmed_end_of(ollama_url@, '/') + "/api/generate"@,
{
    concat2(trim_end_of(ollama_url, '/').as_str(), "/api/generate")
}

/// Where Ollama lists its models, by its base address with or without slashes at its end.
pub fn tags_url(ollama_url: &str) -> (r: String)
    ensures
        r@ == trimmed_end_of(ollama_url@, '/') + "/api/tags"@,
{
    concat2(trim_end_of(ollama_url, '/').as_str(), "/api/tags")
}

/// Why a request to Ollama failed.
#[derive(Debug)]
pub enum OllamaError {
    /// Nothing answers at this address; the model that was asked for, and the cause.
    Unreachable { url: String, model: String, cause: String },
    /// The request failed otherwise, by this cause.
    Failed { cause: String },
    /// The answer has a status that is no success.
    Status { status: String, body: String },
}

impl OllamaError {
    /// What the user is told.
    pub open spec fn text(self) -> Seq<char> {
        match self {
            OllamaError::Unreachable { url, model, cause } => "Cannot reach Ollama at "@ + url@
                + ".\nInstall  : https://ollama.com\nThen run : ollama pull "@ + model@
                + "\nThen run : ollama serve\nError    : "@ + cause@,
            OllamaError::Failed { cause } => "Ollama request failed: "@ + cause@,
            OllamaError::Status { status, body } => "Ollama returned HTTP "@ + status@ + ": "@
                + body@,
        }
    }

    /// What the user is told.
    pub fn message(&self) -> (r: String)
        ensures
            r@ == self.text(),
    {
        match self {
            OllamaError::Unreachable { url, model, cause } => {
                let mut out: String = concat2("Cannot reach Ollama at ", url.as_str());
                out.append(".\nInstall  : https://ollama.com\nThen run : ollama pull ");
                out.append(model.as_str());
                out.append("\nThen run : ollama serve\nError    : ");
                out.append(cause.as_str());
                out
            },
            OllamaError::Failed { cause } => concat2("Ollama request failed: ", cause.as_str()),
            OllamaError::Status { status, body } => {
                let mut out: String = concat2("Ollama returned HTTP ", status.as_str());
                out.append(": ");
                out.append(body.as_str());
                out
            },
        }
    }
}

/// Tells why a request could not be sent, by whether it was the connection that failed.
pub fn send_error(connect: bool, url: String, model: String, cause: String) -> (r: OllamaError)
    ensures
        connect ==> r == (OllamaError::Unreachable { url, model, cause }),
        !connect ==> r == (OllamaError::Failed { cause }),
{
    if connect {
        OllamaError::Unreachable { url, model, cause }
    } else {
        OllamaError::Failed { cause }
    }
}

// ----------------------------------------------------------------------------------------------
// The streamed reply
// ----------------------------------------------------------------------------------------------

/// How many bytes stand before the first line feed.
pub open spec fn line_len(b: Seq<u8>) -> nat
    decreases b.len(),
{
    if b.len() > 0 && b.first() != 10 {
        1 + line_len(b.drop_first())
    } else {
        0
    }
}

/// The first line is no longer than the piece, and not empty where no line feed comes first.
pub proof fn lemma_line_len(b: Seq<u8>)
    ensures
        line_len(b) <= b.len(),
        b.len() > 0 && b.first() != 10 ==> line_len(b) > 0,
    decreases b.len(),
{
    if b.len() > 0 && b.first() != 10 {
        lemma_line_len(b.drop_first());
    }
}

/// The lines of a piece of the stream that are not empty.
pub open spec fn lines(b: Seq<u8>) -> Seq<Seq<u8>>
    decreases b.len(),
{
    if b.len() == 0 {
        Seq::empty()
    } else if b.first() == 10 {
        lines(b.drop_first())
    } else {
        proof {
            lemma_line_len(b);
        }
        let n = line_len(b) as int;
        seq![b.take(n)] + lines(b.skip(n))
    }
}

/// The views of rows of bytes.
pub open spec fn byte_rows(v: Seq<Vec<u8>>) -> Seq<Seq<u8>> {
    v.map_values(|b: Vec<u8>| b@)
}

/// Splits a piece of the stream into its lines that are not empty.
pub fn split_lines(bytes: &[u8]) -> (r: Vec<Vec<u8>>)
    ensures
        byte_rows(r@) == lines(bytes@),
{
    let n: usize = bytes.len();
    let mut out: Vec<Vec<u8>> = Vec::new();
    let mut i: usize = 0;
    assert(bytes@.skip(0) =~= bytes@);
    assert(byte_rows(out@) + lines(bytes@) =~= lines(bytes@));
    while i < n
        invariant
            i <= n,
            n == bytes@.len(),
            byte_rows(out@) + lines(bytes@.skip(i as int)) =~= lines(bytes@),
        decreases n - i,
    {
        let ghost here = bytes@.skip(i as int);
        assert(here.first() == bytes@[i as int]);
        assert(here.drop_first() =~= bytes@.skip(i + 1));
        if bytes[i] == 10 {
            i = i + 1;
        } else {
            let mut line: Vec<u8> = Vec::new();
            line.push(bytes[i]);
            let mut j: usize = i + 1;
            while j < n && bytes[j] != 10
                invariant
                    i < j <= n,
                    n == bytes@.len(),
                    here == bytes@.skip(i as int),
                    line@ =~= bytes@.subrange(i as int, j as int),
                    line_len(here) == (j - i) + line_len(bytes@.skip(j as int)),
                decreases n - j,
            {
                assert(bytes@.skip(j as int).first() == bytes@[j as int]);
                assert(bytes@.skip(j as int).drop_first() =~= bytes@.skip(j + 1));
                line.push(bytes[j]);
                j = j + 1;
            }
            if j < n {
                assert(bytes@.skip(j as int).first() == bytes@[j as int]);
            }
            assert(line_len(here) == j - i);
            assert(here.take(j - i) =~= line@);
            assert(here.skip(j - i) =~= bytes@.skip(j as int));
            let ghost before = byte_rows(out@);
            out.push(line);
            assert(byte_rows(out@) =~= before.push(line@));
            i = j;
        }
    }
    assert(bytes@.skip(n as int).len() == 0);
    out
}

/// One line of the stream, where it could be read.
#[derive(Debug)]
pub struct StreamChunk {
    /// The next piece of the answer.
    pub response: String,
    /// Whether the answer ends here.
    pub done: bool,
}

/// The pieces of the answer in the lines of one piece of the stream: those of the lines that could
/// be read, up to and with the first that ends the answer.
pub open spec fn answer_in(parsed: Seq<Option<StreamChunk>>) -> Seq<Seq<char>>
    decreases parsed.len(),
{
    if parsed.len() == 0 {
        Seq::empty()
    } else {
        match parsed.first() {
            None => answer_in(parsed.drop_first()),
            Some(c) => if c.done {
                seq![c.response@]
            } else {
                seq![c.response@] + answer_in(parsed.drop_first())
            },
        }
    }
}

/// Whether one of the lines ends the answer.
pub open spec fn ends_in(parsed: Seq<Option<StreamChunk>>) -> bool {
    exists|i: int| 0 <= i < parsed.len() && (#[trigger] parsed[i] matches Some(c) && c.done)
}

/// Reads the pieces of the answer off the lines of one piece of the stream, and whether the answer
/// ends in it.
pub fn read_answer(parsed: &Vec<Option<StreamChunk>>) -> (r: (Vec<String>, bool))
    ensures
        texts(r.0@) == answer_in(parsed@),
        r.1 == ends_in(parsed@),
        r.1 <==> exists|i: int|
            0 <= i < parsed@.len() && (#[trigger] parsed@[i]) is Some && parsed@[i]->0.done,
        (forall|i: int| 0 <= i < parsed@.len() ==> (#[trigger] parsed@[i]) is Some) && (forall|
            i: int,
        |
            0 <= i < parsed@.len() - 1 ==> !(#[trigger] parsed@[i])->0.done) ==> r.0@.len()
            == parsed@.len() && forall|i: int|
            0 <= i < parsed@.len() ==> (#[trigger] r.0@[i])@ == parsed@[i]->0.response@,
{
    proof {
        if (forall|i: int| 0 <= i < parsed@.len() ==> (#[trigger] parsed@[i]) is Some) && (forall|
            i: int,
        |
            0 <= i < parsed@.len() - 1 ==> !(#[trigger] parsed@[i])->0.done) {
            law_every_readable_line_is_said(parsed@);
        }
    }
    let r: (Vec<String>, bool) = answer_of(parsed);
    assert(texts(r.0@).len() == r.0@.len());
    assert forall|i: int| 0 <= i < r.0@.len() implies (#[trigger] r.0@[i])@ == texts(r.0@)[i] by {}
    r
}

fn answer_of(parsed: &Vec<Option<StreamChunk>>) -> (r: (Vec<String>, bool))
    ensures
        texts(r.0@) == answer_in(parsed@),
        r.1 == ends_in(parsed@),
{
    let n: usize = parsed.len();
    let mut out: Vec<String> = Vec::new();
    let mut i: usize = 0;
    assert(parsed@.skip(0) =~= parsed@);
    assert(texts(out@) + answer_in(parsed@) =~= answer_in(parsed@));
    while i < n
        invariant
            i <= n,
            n == parsed@.len(),
            texts(out@) + answer_in(parsed@.skip(i as int)) =~= answer_in(parsed@),
            forall|k: int|
                0 <= k < i ==> !(#[trigger] parsed@[k] matches Some(c) && c.done),
        decreases n - i,
    {
        let ghost here = parsed@.skip(i as int);
        let ghost before = texts(out@);
        assert(here.first() == parsed@[i as int]);
        assert(here.drop_first() =~= parsed@.skip(i + 1));
        match &parsed[i] {
            None => {},
            Some(c) => {
                let piece: String = c.response.clone();
                out.push(piece);
                assert(texts(out@) =~= before.push(piece@));
                if c.done {
                    assert(parsed@[i as int] matches Some(c) && c.done);
                    assert(texts(out@) =~= answer_in(parsed@));
                    return (out, true);
                }
            },
        }
        i = i + 1;
    }
    assert(parsed@.skip(n as int).len() == 0);
    (out, false)
}

proof fn lemma_line_len_before_break(a: Seq<u8>, b: Seq<u8>)
    ensures
        line_len(a + seq![10u8] + b) == line_len(a),
    decreases a.len(),
{
    let all = a + seq![10u8] + b;
    if a.len() > 0 {
        assert(all.first() == a.first());
        assert(all.drop_first() =~= a.drop_first() + seq![10u8] + b);
        lemma_line_len_before_break(a.drop_first(), b);
    }
}

/// Where the stream is cut at the end of a line, its lines are those of the two parts.
pub proof fn law_lines_end_at_breaks(a: Seq<u8>, b: Seq<u8>)
    ensures
        lines(a + seq![10u8] + b) == lines(a) + lines(b),
    decreases a.len(),
{
    let all = a + seq![10u8] + b;
    if a.len() == 0 {
        assert(all.drop_first() =~= b);
        assert(lines(a) + lines(b) =~= lines(b));
    } else if a.first() == 10 {
        assert(all.first() == a.first());
        assert(all.drop_first() =~= a.drop_first() + seq![10u8] + b);
        law_lines_end_at_breaks(a.drop_first(), b);
    } else {
        let n = line_len(a) as int;
        lemma_line_len(a);
        lemma_line_len_before_break(a, b);
        assert(all.first() == a.first());
        assert(all.take(n) =~= a.take(n));
        assert(all.skip(n) =~= a.skip(n) + seq![10u8] + b);
        law_lines_end_at_breaks(a.skip(n), b);
        assert(lines(all) =~= lines(a) + lines(b));
    }
}

/// No line is empty or holds a line feed.
pub proof fn law_lines_are_whole(b: Seq<u8>, i: int)
    requires
        0 <= i < lines(b).len(),
    ensures
        lines(b)[i].len() > 0,
        !lines(b)[i].contains(10u8),
    decreases b.len(),
{
    if b.first() == 10 {
        law_lines_are_whole(b.drop_first(), i);
    } else {
        let n = line_len(b) as int;
        lemma_line_len(b);
        if i == 0 {
            lemma_no_break_before(b);
            assert(lines(b)[0] == b.take(n));
            assert forall|k: int| 0 <= k < n implies b.take(n)[k] != 10 by {
                assert(b.take(n)[k] == b[k]);
            }
        } else {
            assert(lines(b)[i] == lines(b.skip(n))[i - 1]);
            law_lines_are_whole(b.skip(n), i - 1);
        }
    }
}

proof fn lemma_no_break_before(b: Seq<u8>)
    ensures
        forall|k: int| 0 <= k < line_len(b) ==> #[trigger] b[k] != 10,
    decreases b.len(),
{
    if b.len() > 0 && b.first() != 10 {
        lemma_no_break_before(b.drop_first());
        lemma_line_len(b);
        assert forall|k: int| 0 <= k < line_len(b) implies #[trigger] b[k] != 10 by {
            if k > 0 {
                assert(b[k] == b.drop_first()[k - 1]);
            }
        }
    }
}

// ----------------------------------------------------------------------------------------------
// Lines across the pieces of a stream
// ----------------------------------------------------------------------------------------------

/// The bytes up to and with the last line feed among them.
pub open spec fn whole_lines(b: Seq<u8>) -> Seq<u8>
    decreases b.len(),
{
    if b.len() == 0 || b.last() == 10 {
        b
    } else {
        whole_lines(b.drop_last())
    }
}

/// Whole lines are the front of the bytes, end in a line feed, and leave no other behind.
proof fn lemma_whole_lines(b: Seq<u8>)
    ensures
        whole_lines(b).len() <= b.len(),
        whole_lines(b) == b.take(whole_lines(b).len() as int),
        whole_lines(b).len() > 0 ==> whole_lines(b).last() == 10,
        forall|i: int| whole_lines(b).len() <= i < b.len() ==> #[trigger] b[i] != 10,
    decreases b.len(),
{
    if b.len() == 0 || b.last() == 10 {
        assert(b.take(b.len() as int) =~= b);
    } else {
        lemma_whole_lines(b.drop_last());
        let n = whole_lines(b).len() as int;
        assert(b.drop_last().take(n) =~= b.take(n));
        assert forall|i: int| n <= i < b.len() implies #[trigger] b[i] != 10 by {
            if i < b.len() - 1 {
                assert(b[i] == b.drop_last()[i]);
            }
        }
    }
}

/// The whole lines end at the only place after which no line feed comes.
proof fn lemma_whole_lines_are(head: Seq<u8>, tail: Seq<u8>)
    requires
        head.len() > 0 ==> head.last() == 10,
        forall|i: int| 0 <= i < tail.len() ==> #[trigger] tail[i] != 10,
    ensures
        whole_lines(head + tail) == head,
    decreases tail.len(),
{
    let all = head + tail;
    if tail.len() == 0 {
        assert(all =~= head);
        if head.len() == 0 {
            assert(head =~= Seq::<u8>::empty());
        }
    } else {
        assert(all.last() == tail.last());
        assert(tail[tail.len() - 1] != 10);
        assert(all.drop_last() =~= head + tail.drop_last());
        lemma_whole_lines_are(head, tail.drop_last());
    }
}

/// Behind whole lines the lines of more bytes follow.
proof fn lemma_lines_follow(head: Seq<u8>, tail: Seq<u8>)
    requires
        head.len() > 0 ==> head.last() == 10,
    ensures
        lines(head + tail) == lines(head) + lines(tail),
{
    if head.len() == 0 {
        assert(head + tail =~= tail);
        assert(lines(head) + lines(tail) =~= lines(tail));
    } else {
        let front = head.drop_last();
        let none = Seq::<u8>::empty();
        assert(head + tail =~= front + seq![10u8] + tail);
        assert(head =~= front + seq![10u8] + none);
        law_lines_end_at_breaks(front, tail);
        law_lines_end_at_breaks(front, none);
        assert(lines(none) =~= Seq::<Seq<u8>>::empty());
        assert(lines(front) + lines(none) =~= lines(front));
    }
}

/// The lines of a stream that comes in pieces, wherever it is cut: each line is given once it is
/// whole.
pub struct LineBuffer {
    rest: Vec<u8>,
    fed: Ghost<Seq<u8>>,
}

impl LineBuffer {
    /// The bytes that came in.
    pub closed spec fn fed(self) -> Seq<u8> {
        self.fed@
    }

    /// The lines that were given.
    pub open spec fn given(self) -> Seq<Seq<u8>> {
        lines(whole_lines(self.fed()))
    }

    #[verifier::type_invariant]
    spec fn well_formed(self) -> bool {
        self.fed@ == whole_lines(self.fed@) + self.rest@
    }

    /// Starts with nothing.
    pub fn new() -> (r: LineBuffer)
        ensures
            r.fed() == Seq::<u8>::empty(),
            r.given() == Seq::<Seq<u8>>::empty(),
    {
        let ghost none = Seq::<u8>::empty();
        assert(whole_lines(none) + none =~= none);
        LineBuffer { rest: Vec::new(), fed: Ghost(none) }
    }

    /// Takes in the next piece, and gives the lines that are whole with it.
    pub fn feed(&mut self, piece: &[u8]) -> (r: Vec<Vec<u8>>)
        ensures
            final(self).fed() == old(self).fed() + piece@,
            final(self).given() == old(self).given() + byte_rows(r@),
    {
        proof {
            use_type_invariant(&*self);
        }
        let ghost fed = self.fed@;
        let ghost head = whole_lines(fed);
        let mut taken: LineBuffer = LineBuffer::new();
        std::mem::swap(&mut taken, self);
        let mut all: Vec<u8> = taken.rest;
        let ghost kept = all@;
        all.extend_from_slice(piece);
        assert(all@ =~= kept + piece@);
        let n: usize = all.len();
        let mut end: usize = n;
        while end > 0 && all[end - 1] != 10
            invariant
                end <= n,
                n == all@.len(),
                forall|i: int| end <= i < n ==> #[trigger] all@[i] != 10,
            decreases end,
        {
            end = end - 1;
        }
        let rest: Vec<u8> = all.split_off(end);
        let out: Vec<Vec<u8>> = split_lines(all.as_slice());
        proof {
            let now = fed + piece@;
            let whole = head + all@;
            lemma_whole_lines(fed);
            assert(now =~= whole + rest@);
            assert(whole.len() > 0 ==> whole.last() == 10) by {
                if all@.len() > 0 {
                    assert(whole.last() == all@.last());
                } else {
                    assert(whole =~= head);
                }
            }
            assert forall|i: int| 0 <= i < rest@.len() implies #[trigger] rest@[i] != 10 by {}
            lemma_whole_lines_are(whole, rest@);
            lemma_lines_follow(head, all@);
        }
        *self = LineBuffer { rest, fed: Ghost(fed + piece@) };
        out
    }

    /// Gives the last line, where it has no line feed at its end.
    pub fn finish(self) -> (r: Vec<Vec<u8>>)
        ensures
            self.given() + byte_rows(r@) == lines(self.fed()),
    {
        proof {
            use_type_invariant(&self);
            lemma_whole_lines(self.fed@);
            lemma_lines_follow(whole_lines(self.fed@), self.rest@);
        }
        split_lines(self.rest.as_slice())
    }
}

// ----------------------------------------------------------------------------------------------
// The answer in a whole stream
// ----------------------------------------------------------------------------------------------

/// Whether a stream is read no further after these pieces: the web page stops after the piece in
/// which the answer ends, and the terminal reads on until the stream does.
pub open spec fn read_out(asker: Asker, pieces: Seq<Seq<Option<StreamChunk>>>) -> bool {
    asker == Asker::Web && exists|i: int| 0 <= i < pieces.len() && ends_in(#[trigger] pieces[i])
}

/// The pieces of the answer in a stream, by the lines of each of its pieces.
pub open spec fn streamed(asker: Asker, pieces: Seq<Seq<Option<StreamChunk>>>) -> Seq<Seq<char>>
    decreases pieces.len(),
{
    if pieces.len() == 0 {
        Seq::empty()
    } else if read_out(asker, pieces.drop_last()) {
        streamed(asker, pieces.drop_last())
    } else {
        streamed(asker, pieces.drop_last()) + answer_in(pieces.last())
    }
}

/// The answer in a stream, read piece by piece.
pub struct AnswerStream {
    asker: Asker,
    over: bool,
    pieces: Ghost<Seq<Seq<Option<StreamChunk>>>>,
}

impl AnswerStream {
    /// Who reads the answer.
    pub closed spec fn asker(self) -> Asker {
        self.asker
    }

    /// The lines of the pieces that came in.
    pub closed spec fn pieces(self) -> Seq<Seq<Option<StreamChunk>>> {
        self.pieces@
    }

    #[verifier::type_invariant]
    spec fn well_formed(self) -> bool {
        self.over == read_out(self.asker, self.pieces@)
    }

    /// Starts before the first piece.
    pub fn new(asker: Asker) -> (r: AnswerStream)
        ensures
            r.asker() == asker,
            r.pieces() == Seq::<Seq<Option<StreamChunk>>>::empty(),
    {
        AnswerStream { asker, over: false, pieces: Ghost(Seq::empty()) }
    }

    /// Whether the stream is to be read no further.
    pub fn is_over(&self) -> (r: bool)
        ensures
            r == read_out(self.asker(), self.pieces()),
    {
        proof {
            use_type_invariant(self);
        }
        self.over
    }

    /// Takes in the lines of the next piece, and gives what it adds to the answer.
    pub fn take(&mut self, lines: &Vec<Option<StreamChunk>>) -> (r: Vec<String>)
        ensures
            final(self).asker() == old(self).asker(),
            final(self).pieces() == old(self).pieces().push(lines@),
            streamed(final(self).asker(), final(self).pieces()) == streamed(
                old(self).asker(),
                old(self).pieces(),
            ) + texts(r@),
    {
        proof {
            use_type_invariant(&*self);
        }
        let ghost before = self.pieces@;
        let ghost now = before.push(lines@);
        let asker: Asker = self.asker;
        assert(now.drop_last() =~= before);
        if self.over {
            proof {
                let i = choose|i: int| 0 <= i < before.len() && ends_in(#[trigger] before[i]);
                assert(now[i] == before[i]);
            }
            *self = AnswerStream { asker, over: true, pieces: Ghost(now) };
            let none: Vec<String> = Vec::new();
            assert(texts(none@) =~= Seq::<Seq<char>>::empty());
            assert(streamed(asker, before) + texts(none@) =~= streamed(asker, before));
            return none;
        }
        let (pieces, ended): (Vec<String>, bool) = read_answer(lines);
        let over: bool = match asker {
            Asker::Web => ended,
            _ => false,
        };
        assert(over == read_out(asker, now)) by {
            if over {
                assert(ends_in(now[before.len() as int]));
            }
            if read_out(asker, now) {
                let i = choose|i: int| 0 <= i < now.len() && ends_in(#[trigger] now[i]);
                if i < before.len() {
                    assert(ends_in(before[i]));
                }
            }
        }
        *self = AnswerStream { asker, over, pieces: Ghost(now) };
        pieces
    }
}

/// The pieces put together.
pub open spec fn put_together<A>(pieces: Seq<Seq<A>>) -> Seq<A>
    decreases pieces.len(),
{
    if pieces.len() == 0 {
        Seq::empty()
    } else {
        put_together(pieces.drop_last()) + pieces.last()
    }
}

/// What all the lines that could be read add to the answer.
pub open spec fn responses(lines: Seq<Option<StreamChunk>>) -> Seq<Seq<char>>
    decreases lines.len(),
{
    if lines.len() == 0 {
        Seq::empty()
    } else {
        match lines.last() {
            Some(c) => responses(lines.drop_last()).push(c.response@),
            None => responses(lines.drop_last()),
        }
    }
}

/// Whether no line but the last ends the answer.
pub open spec fn ends_last(lines: Seq<Option<StreamChunk>>) -> bool {
    forall|i: int|
        0 <= i < lines.len() - 1 ==> !(#[trigger] lines[i] matches Some(c) && c.done)
}

proof fn lemma_responses_concat(a: Seq<Option<StreamChunk>>, b: Seq<Option<StreamChunk>>)
    ensures
        responses(a + b) == responses(a) + responses(b),
    decreases b.len(),
{
    if b.len() == 0 {
        assert(a + b =~= a);
        assert(responses(a) + responses(b) =~= responses(a));
    } else {
        lemma_responses_concat(a, b.drop_last());
        assert((a + b).drop_last() =~= a + b.drop_last());
        assert(responses(a + b) =~= responses(a) + responses(b));
    }
}

proof fn lemma_all_is_read(lines: Seq<Option<StreamChunk>>)
    requires
        ends_last(lines),
    ensures
        answer_in(lines) == responses(lines),
    decreases lines.len(),
{
    if lines.len() > 0 {
        let first = seq![lines.first()];
        let rest = lines.drop_first();
        assert forall|i: int| 0 <= i < rest.len() - 1 implies !(#[trigger] rest[i] matches Some(c)
            && c.done) by {
            assert(rest[i] == lines[i + 1]);
        }
        lemma_all_is_read(rest);
        assert(lines =~= first + rest);
        lemma_responses_concat(first, rest);
        assert(first.drop_last() =~= Seq::<Option<StreamChunk>>::empty());
        assert(responses(first.drop_last()) =~= Seq::<Seq<char>>::empty());
        if rest.len() == 0 {
            assert(responses(rest) =~= Seq::<Seq<char>>::empty());
            assert(answer_in(rest) =~= Seq::<Seq<char>>::empty());
        } else {
            assert(!(lines[0] matches Some(c) && c.done));
        }
        assert(answer_in(lines) =~= responses(lines));
    }
}

/// Wherever a stream is cut, the answer is the same: where no line but the last ends it, terminal and
/// web page alike read what all its lines say, in their order.
pub proof fn law_cuts_do_not_matter(asker: Asker, pieces: Seq<Seq<Option<StreamChunk>>>)
    requires
        ends_last(put_together(pieces)),
    ensures
        streamed(asker, pieces) == responses(put_together(pieces)),
    decreases pieces.len(),
{
    if pieces.len() > 0 {
        let before = pieces.drop_last();
        let last = pieces.last();
        let front = put_together(before);
        let all = put_together(pieces);
        assert forall|i: int| 0 <= i < front.len() - 1 implies !(#[trigger] front[i] matches Some(c)
            && c.done) by {
            assert(front[i] == all[i]);
        }
        law_cuts_do_not_matter(asker, before);
        if last.len() == 0 {
            assert(all =~= front);
            assert(answer_in(last) =~= Seq::<Seq<char>>::empty());
            assert(streamed(asker, before) + answer_in(last) =~= streamed(asker, before));
        } else {
            assert forall|i: int| 0 <= i < last.len() - 1 implies !(#[trigger] last[i] matches Some(
                c,
            ) && c.done) by {
                assert(last[i] == all[front.len() + i]);
            }
            lemma_all_is_read(last);
            lemma_responses_concat(front, last);
            if read_out(asker, before) {
                let i = choose|i: int| 0 <= i < before.len() && ends_in(#[trigger] before[i]);
                let k = choose|k: int|
                    0 <= k < before[i].len() && (#[trigger] before[i][k] matches Some(c) && c.done);
                let at = lemma_place_in_front(before, i, k);
                assert(all[at] == front[at]);
            }
        }
    }
}

/// A line of a piece stands somewhere in the pieces put together.
proof fn lemma_place_in_front<A>(pieces: Seq<Seq<A>>, i: int, k: int) -> (at: int)
    requires
        0 <= i < pieces.len(),
        0 <= k < pieces[i].len(),
    ensures
        0 <= at < put_together(pieces).len(),
        put_together(pieces)[at] == pieces[i][k],
    decreases pieces.len(),
{
    if i == pieces.len() - 1 {
        put_together(pieces.drop_last()).len() + k
    } else {
        lemma_place_in_front(pieces.drop_last(), i, k)
    }
}

proof fn lemma_parsed_together<A, B>(rows: Seq<Seq<A>>, parse: spec_fn(A) -> B)
    ensures
        put_together(rows.map_values(|row: Seq<A>| row.map_values(parse))) == put_together(
            rows,
        ).map_values(parse),
    decreases rows.len(),
{
    let parsed = rows.map_values(|row: Seq<A>| row.map_values(parse));
    if rows.len() > 0 {
        let front = rows.drop_last();
        lemma_parsed_together(front, parse);
        assert(parsed.drop_last() =~= front.map_values(|row: Seq<A>| row.map_values(parse)));
    }
    assert(put_together(parsed) =~= put_together(rows).map_values(parse));
}

/// From bytes to the answer: where the lines of a stream were given in any pieces, and no line but
/// the last ends the answer, what is read of them is what all the lines of the stream say.
pub proof fn law_streams_are_read_whole(
    asker: Asker,
    fed: Seq<u8>,
    given: Seq<Seq<Seq<u8>>>,
    parse: spec_fn(Seq<u8>) -> Option<StreamChunk>,
)
    requires
        put_together(given) == lines(fed),
        ends_last(lines(fed).map_values(parse)),
    ensures
        streamed(asker, given.map_values(|row: Seq<Seq<u8>>| row.map_values(parse))) == responses(
            lines(fed).map_values(parse),
        ),
{
    lemma_parsed_together(given, parse);
    law_cuts_do_not_matter(
        asker,
        given.map_values(|row: Seq<Seq<u8>>| row.map_values(parse)),
    );
}

/// The web page reads nothing after the piece in which the answer ends.
pub proof fn law_the_web_page_stops_at_the_end(
    pieces: Seq<Seq<Option<StreamChunk>>>,
    more: Seq<Seq<Option<StreamChunk>>>,
)
    requires
        read_out(Asker::Web, pieces),
    ensures
        streamed(Asker::Web, pieces + more) == streamed(Asker::Web, pieces),
        read_out(Asker::Web, pieces + more),
    decreases more.len(),
{
    if more.len() == 0 {
        assert(pieces + more =~= pieces);
    } else {
        law_the_web_page_stops_at_the_end(pieces, more.drop_last());
        assert((pieces + more).drop_last() =~= pieces + more.drop_last());
        let i = choose|i: int| 0 <= i < pieces.len() && ends_in(#[trigger] pieces[i]);
        assert((pieces + more)[i] == pieces[i]);
    }
}

/// The terminal reads on until the stream ends: whatever came before, a piece adds what is read of
/// it alone.
pub proof fn law_the_terminal_reads_on(
    pieces: Seq<Seq<Option<StreamChunk>>>,
    more: Seq<Seq<Option<StreamChunk>>>,
)
    ensures
        streamed(Asker::Terminal, pieces + more) == streamed(Asker::Terminal, pieces) + streamed(
            Asker::Terminal,
            more,
        ),
        !read_out(Asker::Terminal, pieces),
    decreases more.len(),
{
    let a = streamed(Asker::Terminal, pieces);
    if more.len() == 0 {
        assert(pieces + more =~= pieces);
        assert(a + streamed(Asker::Terminal, more) =~= a);
    } else {
        law_the_terminal_reads_on(pieces, more.drop_last());
        assert((pieces + more).drop_last() =~= pieces + more.drop_last());
        assert(streamed(Asker::Terminal, pieces + more) =~= a + streamed(Asker::Terminal, more));
    }
}

// ----------------------------------------------------------------------------------------------
// What is said, line by line
// ----------------------------------------------------------------------------------------------

/// Where all lines of a piece were readable and none but the last ends the answer, each line gives
/// one piece of the answer: what it responds, whatever the characters of that are.
pub proof fn law_every_readable_line_is_said(lines: Seq<Option<StreamChunk>>)
    requires
        forall|i: int| 0 <= i < lines.len() ==> (#[trigger] lines[i]) is Some,
        forall|i: int| 0 <= i < lines.len() - 1 ==> !(#[trigger] lines[i])->0.done,
    ensures
        answer_in(lines).len() == lines.len(),
        forall|i: int|
            0 <= i < lines.len() ==> #[trigger] answer_in(lines)[i] == lines[i]->0.response@,
    decreases lines.len(),
{
    if lines.len() > 0 {
        let rest = lines.drop_first();
        assert forall|i: int| 0 <= i < rest.len() implies (#[trigger] rest[i]) is Some by {
            assert(rest[i] == lines[i + 1]);
        }
        assert forall|i: int| 0 <= i < rest.len() - 1 implies !(#[trigger] rest[i])->0.done by {
            assert(rest[i] == lines[i + 1]);
        }
        law_every_readable_line_is_said(rest);
        assert(lines[0] is Some);
        assert(lines.len() > 1 ==> !lines[0]->0.done);
        assert forall|i: int| 0 <= i < lines.len() implies #[trigger] answer_in(lines)[i]
            == lines[i]->0.response@ by {
            if i > 0 {
                assert(answer_in(lines)[i] == answer_in(rest)[i - 1]);
                assert(rest[i - 1] == lines[i]);
            }
        }
    }
}

proof fn lemma_filter_one(line: Option<StreamChunk>)
    ensures
        seq![line].filter(|l: Option<StreamChunk>| l is Some) == (if line is Some {
            seq![line]
        } else {
            Seq::empty()
        }),
{
    reveal(Seq::filter);
    let keep = |l: Option<StreamChunk>| l is Some;
    let one = seq![line];
    assert(one.drop_last() =~= Seq::<Option<StreamChunk>>::empty());
    assert(one.drop_last().filter(keep) =~= Seq::<Option<StreamChunk>>::empty());
    assert(one.last() == line);
    assert(Seq::<Option<StreamChunk>>::empty().push(line) =~= one);
}

/// What is read of a piece is what the lines respond that could be read, in their order and each as
/// it is, up to and with the first that ends the answer.
pub proof fn law_answers_end_with_the_first_end(lines: Seq<Option<StreamChunk>>, n: int)
    requires
        0 <= n <= lines.len(),
        forall|i: int|
            0 <= i < n - 1 ==> !((#[trigger] lines[i]) is Some && lines[i]->0.done),
        n < lines.len() ==> n > 0 && lines[n - 1] is Some && lines[n - 1]->0.done,
    ensures
        answer_in(lines) == lines.take(n).filter(
            |l: Option<StreamChunk>| l is Some,
        ).map_values(|l: Option<StreamChunk>| l->0.response@),
    decreases lines.len(),
{
    let keep = |l: Option<StreamChunk>| l is Some;
    let say = |l: Option<StreamChunk>| l->0.response@;
    reveal(Seq::filter);
    if lines.len() == 0 {
        assert(lines.take(n) =~= Seq::<Option<StreamChunk>>::empty());
        assert(lines.take(n).filter(keep).map_values(say) =~= Seq::<Seq<char>>::empty());
    } else {
        let line = lines.first();
        let rest = lines.drop_first();
        let one = seq![line];
        let behind = lines.subrange(1, n);
        assert(lines.take(n) =~= one + behind);
        Seq::filter_distributes_over_add(one, behind, keep);
        lemma_filter_one(line);
        assert((one + behind).filter(keep).map_values(say) =~= one.filter(keep).map_values(say)
            + behind.filter(keep).map_values(say));
        if line is Some && line->0.done {
            if n > 1 {
                assert(!(lines[0] is Some && lines[0]->0.done));
            }
            assert(behind =~= Seq::<Option<StreamChunk>>::empty());
            assert(behind.filter(keep) =~= Seq::<Option<StreamChunk>>::empty());
            assert(answer_in(lines) =~= one.filter(keep).map_values(say) + behind.filter(
                keep,
            ).map_values(say));
        } else {
            if n == 1 && n < lines.len() {
                assert(lines[n - 1] == line);
            }
            assert forall|i: int| 0 <= i < n - 2 implies !((#[trigger] rest[i]) is Some
                && rest[i]->0.done) by {
                assert(rest[i] == lines[i + 1]);
            }
            if n - 1 < rest.len() {
                assert(rest[n - 2] == lines[n - 1]);
            }
            law_answers_end_with_the_first_end(rest, n - 1);
            assert(rest.take(n - 1) =~= behind);
            assert(answer_in(lines) =~= one.filter(keep).map_values(say) + behind.filter(
                keep,
            ).map_values(say));
        }
    }
}

/// An answer is the same read at once and read piece by piece, wherever the stream is cut: where no
/// line but the last ends it, it is what all lines respond that could be read, in their order and
/// each as it is.
pub proof fn law_streams_say_what_their_lines_say(
    asker: Asker,
    pieces: Seq<Seq<Option<StreamChunk>>>,
)
    requires
        forall|i: int|
            0 <= i < pieces.flatten().len() - 1 ==> !((#[trigger] pieces.flatten()[i]) is Some
                && pieces.flatten()[i]->0.done),
    ensures
        streamed(asker, pieces) == pieces.flatten().filter(
            |l: Option<StreamChunk>| l is Some,
        ).map_values(|l: Option<StreamChunk>| l->0.response@),
        (forall|i: int|
            0 <= i < pieces.flatten().len() ==> (#[trigger] pieces.flatten()[i]) is Some) ==> {
            &&& streamed(asker, pieces).len() == pieces.flatten().len()
            &&& forall|i: int|
                0 <= i < pieces.flatten().len() ==> #[trigger] streamed(asker, pieces)[i]
                    == pieces.flatten()[i]->0.response@
        },
{
    let all = pieces.flatten();
    lemma_put_together_is_flat(pieces);
    assert forall|i: int| 0 <= i < all.len() - 1 implies !(#[trigger] all[i] matches Some(c)
        && c.done) by {}
    law_cuts_do_not_matter(asker, pieces);
    lemma_all_is_read(all);
    let n = all.len() as int;
    law_answers_end_with_the_first_end(all, n);
    assert(all.take(n) =~= all);
    if forall|i: int| 0 <= i < all.len() ==> (#[trigger] all[i]) is Some {
        law_every_readable_line_is_said(all);
    }
}

proof fn lemma_put_together_is_flat<A>(pieces: Seq<Seq<A>>)
    ensures
        put_together(pieces) == pieces.flatten(),
    decreases pieces.len(),
{
    pieces.lemma_flatten_and_flatten_alt_are_equivalent();
    if pieces.len() > 0 {
        let front = pieces.drop_last();
        lemma_put_together_is_flat(front);
        front.lemma_flatten_and_flatten_alt_are_equivalent();
    }
}

/// From bytes to the answer, line by line: where the lines of a stream were given in any pieces and
/// no line but the last ends the answer, it is what the lines respond that could be read.
pub proof fn law_streams_say_what_their_bytes_say(
    asker: Asker,
    fed: Seq<u8>,
    given: Seq<Seq<Seq<u8>>>,
    parse: spec_fn(Seq<u8>) -> Option<StreamChunk>,
)
    requires
        given.flatten() == lines(fed),
        forall|i: int|
            0 <= i < lines(fed).len() - 1 ==> !(parse(#[trigger] lines(fed)[i]) is Some && parse(
                lines(fed)[i],
            )->0.done),
    ensures
        streamed(asker, given.map_values(|row: Seq<Seq<u8>>| row.map_values(parse))) == lines(
            fed,
        ).map_values(parse).filter(|l: Option<StreamChunk>| l is Some).map_values(
            |l: Option<StreamChunk>| l->0.response@,
        ),
{
    let parsed = given.map_values(|row: Seq<Seq<u8>>| row.map_values(parse));
    lemma_put_together_is_flat(given);
    lemma_parsed_together(given, parse);
    lemma_put_together_is_flat(parsed);
    let all = parsed.flatten();
    assert(all == lines(fed).map_values(parse));
    assert forall|i: int| 0 <= i < all.len() - 1 implies !((#[trigger] all[i]) is Some
        && all[i]->0.done) by {
        assert(all[i] == parse(lines(fed)[i]));
    }
    law_streams_say_what_their_lines_say(asker, parsed);
}

/// Each piece adds what is read of it alone. Only the web page reads no further, once the answer has
/// ended in a piece; the terminal and an agent read on.
pub proof fn law_each_piece_adds_its_answer(
    asker: Asker,
    pieces: Seq<Seq<Option<StreamChunk>>>,
    piece: Seq<Option<StreamChunk>>,
)
    ensures
        streamed(asker, Seq::empty()) == Seq::<Seq<char>>::empty(),
        read_out(asker, pieces) <==> asker == Asker::Web && exists|i: int, k: int|
            0 <= i < pieces.len() && 0 <= k < pieces[i].len() && (#[trigger] pieces[i][k]) is Some
                && pieces[i][k]->0.done,
        asker != Asker::Web || (forall|i: int, k: int|
            0 <= i < pieces.len() && 0 <= k < pieces[i].len() && (#[trigger] pieces[i][k]) is Some
                ==> !pieces[i][k]->0.done) ==> streamed(asker, pieces.push(piece)) == streamed(
            asker,
            pieces,
        ) + answer_in(piece),
        asker == Asker::Web && (exists|i: int, k: int|
            0 <= i < pieces.len() && 0 <= k < pieces[i].len() && (#[trigger] pieces[i][k]) is Some
                && pieces[i][k]->0.done) ==> streamed(asker, pieces.push(piece)) == streamed(
            asker,
            pieces,
        ),
{
    assert(pieces.push(piece).drop_last() =~= pieces);
    if asker == Asker::Web && exists|i: int, k: int|
        0 <= i < pieces.len() && 0 <= k < pieces[i].len() && (#[trigger] pieces[i][k]) is Some
            && pieces[i][k]->0.done {
        let (i, k) = choose|i: int, k: int|
            0 <= i < pieces.len() && 0 <= k < pieces[i].len() && (#[trigger] pieces[i][k]) is Some
                && pieces[i][k]->0.done;
        assert(pieces[i][k] matches Some(c) && c.done);
        assert(ends_in(pieces[i]));
    }
    if read_out(asker, pieces) {
        let i = choose|i: int| 0 <= i < pieces.len() && ends_in(#[trigger] pieces[i]);
        let k = choose|k: int|
            0 <= k < pieces[i].len() && (#[trigger] pieces[i][k] matches Some(c) && c.done);
        assert(pieces[i][k] is Some && pieces[i][k]->0.done);
    }
}

/// Bytes without a line feed are one line, unless there are none; and splitting into lines loses no
/// byte but the line feeds.
pub proof fn law_lines_lose_only_breaks(b: Seq<u8>)
    ensures
        b.len() > 0 && !b.contains(10u8) ==> lines(b) == seq![b],
        lines(Seq::<u8>::empty()) == Seq::<Seq<u8>>::empty(),
        lines(b).flatten() == b.filter(|x: u8| x != 10),
    decreases b.len(),
{
    let keep = |x: u8| x != 10;
    reveal(Seq::filter);
    assert(lines(Seq::<u8>::empty()) =~= Seq::<Seq<u8>>::empty());
    if b.len() > 0 {
        lemma_line_len(b);
        lemma_no_break_before(b);
        if b.first() == 10 {
            assert(b.contains(10u8)) by {
                assert(b[0] == 10);
            }
            let head = seq![b.first()];
            let rest = b.drop_first();
            assert(b =~= head + rest);
            Seq::filter_distributes_over_add(head, rest, keep);
            assert(head.drop_last() =~= Seq::<u8>::empty());
            assert(head.drop_last().filter(keep) =~= Seq::<u8>::empty());
            assert(head.last() == b.first());
            assert(head.filter(keep) =~= Seq::<u8>::empty());
            law_lines_lose_only_breaks(rest);
            assert(Seq::<u8>::empty() + rest.filter(keep) =~= rest.filter(keep));
        } else {
            let n = line_len(b) as int;
            let head = b.take(n);
            let rest = b.skip(n);
            assert(b =~= head + rest);
            Seq::filter_distributes_over_add(head, rest, keep);
            assert forall|i: int| 0 <= i < head.len() implies keep(#[trigger] head[i]) by {
                assert(head[i] == b[i]);
            }
            lemma_filter_keeps_bytes(head, keep);
            law_lines_lose_only_breaks(rest);
            let all = lines(b);
            assert(all.first() == head);
            assert(all.drop_first() =~= lines(rest));
            assert(all.flatten() == all.first() + all.drop_first().flatten());
            if !b.contains(10u8) {
                lemma_line_reaches_break(b);
                assert(n == b.len());
                assert(head =~= b);
                assert(rest =~= Seq::<u8>::empty());
                assert(all =~= seq![b]);
            }
        }
    }
}

proof fn lemma_line_reaches_break(b: Seq<u8>)
    ensures
        line_len(b) < b.len() ==> b[line_len(b) as int] == 10,
    decreases b.len(),
{
    if b.len() > 0 && b.first() != 10 {
        let rest = b.drop_first();
        lemma_line_reaches_break(rest);
        lemma_line_len(b);
        if line_len(b) < b.len() {
            assert(b[line_len(b) as int] == rest[line_len(rest) as int]);
        }
    }
}

proof fn lemma_filter_keeps_bytes(s: Seq<u8>, keep: spec_fn(u8) -> bool)
    requires
        forall|i: int| 0 <= i < s.len() ==> keep(#[trigger] s[i]),
    ensures
        s.filter(keep) == s,
    decreases s.len(),
{
    reveal(Seq::filter);
    if s.len() > 0 {
        let rest = s.drop_last();
        assert forall|i: int| 0 <= i < rest.len() implies keep(#[trigger] rest[i]) by {
            assert(rest[i] == s[i]);
        }
        assert(keep(s[s.len() - 1]));
        lemma_filter_keeps_bytes(rest, keep);
        assert(rest.push(s.last()) =~= s);
    }
}

/// Whole lines reach up to the last line feed: what comes behind it waits for more, and where there
/// is no line feed everything does.
pub proof fn law_whole_lines_reach_the_last_break(head: Seq<u8>, tail: Seq<u8>)
    requires
        !tail.contains(10u8),
    ensures
        whole_lines(head + seq![10u8] + tail) == head + seq![10u8],
        whole_lines(tail) == Seq::<u8>::empty(),
{
    assert forall|i: int| 0 <= i < tail.len() implies #[trigger] tail[i] != 10 by {
        assert(tail.contains(tail[i]));
    }
    lemma_whole_lines_are(head + seq![10u8], tail);
    lemma_whole_lines_are(Seq::empty(), tail);
    assert(Seq::<u8>::empty() + tail =~= tail);
}

// ----------------------------------------------------------------------------------------------
// What is asked, chunk by chunk
// ----------------------------------------------------------------------------------------------

/// Each chunk stands in the context under its number, counted from one, and the name of its file,
/// whole and behind those before it, with a rule between.
pub proof fn law_every_chunk_is_in_the_context(chunks: Seq<Row>, next: Row)
    ensures
        context_of(Seq::empty()) == Seq::<char>::empty(),
        chunks.len() == 0 ==> context_of(chunks.push(next)) == "[Source "@ + numeral(1) + "] ("@
            + next.0@ + ")\n"@ + next.2@,
        chunks.len() > 0 ==> context_of(chunks.push(next)) == context_of(chunks)
            + "\n\n---\n\n"@ + ("[Source "@ + numeral(chunks.len() + 1) + "] ("@ + next.0@ + ")\n"@
            + next.2@),
{
    let more = chunks.push(next);
    let blocks = Seq::new(
        chunks.len(),
        |i: int| source_block((i + 1) as nat, chunks[i].0@, chunks[i].2@),
    );
    let more_blocks = Seq::new(
        more.len(),
        |i: int| source_block((i + 1) as nat, more[i].0@, more[i].2@),
    );
    assert(more_blocks.drop_last() =~= blocks);
    assert(more_blocks.last() == source_block(chunks.len() + 1, next.0@, next.2@));
}

/// A prompt is what the asker tells the model, the context and the question, each whole.
pub proof fn law_prompts_hold_context_and_question(question: Seq<char>, chunks: Seq<Row>)
    ensures
        prompt_for(Asker::Terminal, question, chunks)
            == "You are a helpful assistant with access to the user's local files.\nUse ONLY the provided context to answer. If the answer is not in the context, say so clearly."@
            + "\n\nCONTEXT:\n"@ + context_of(chunks) + "\n\nQUESTION: "@ + question
            + "\n\nANSWER:"@,
        prompt_for(Asker::Agent, question, chunks)
            == "You are a helpful assistant with access to the user's local files.\nUse ONLY the provided context. If the answer is not present, say so."@
            + "\n\nCONTEXT:\n"@ + context_of(chunks) + "\n\nQUESTION: "@ + question
            + "\n\nANSWER:"@,
        prompt_for(Asker::Web, question, chunks)
            == "You are a helpful assistant. Use ONLY the context below to answer."@
            + "\n\nCONTEXT:\n"@ + context_of(chunks) + "\n\nQUESTION: "@ + question
            + "\n\nANSWER:"@,
{
}

/// An error is told with all that is known of it: where Ollama was looked for, for which model, and
/// the cause, or the status and the body of its reply.
pub proof fn law_errors_are_told_in_full(a: String, b: String, c: String)
    ensures
        (OllamaError::Unreachable { url: a, model: b, cause: c }).text()
            == "Cannot reach Ollama at "@ + a@
            + ".\nInstall  : https://ollama.com\nThen run : ollama pull "@ + b@
            + "\nThen run : ollama serve\nError    : "@ + c@,
        (OllamaError::Failed { cause: c }).text() == "Ollama request failed: "@ + c@,
        (OllamaError::Status { status: a, body: b }).text() == "Ollama returned HTTP "@ + a@ + ": "@
            + b@,
{
}

/// A line is given as soon as its line feed came in, and what comes behind the last line feed is not
/// given before.
pub proof fn law_lines_are_given_when_they_are_whole(
    buffer: LineBuffer,
    head: Seq<u8>,
    tail: Seq<u8>,
)
    requires
        !tail.contains(10u8),
    ensures
        buffer.fed() == head + seq![10u8] + tail ==> buffer.given() == lines(head),
        buffer.fed() == tail ==> buffer.given() == Seq::<Seq<u8>>::empty(),
{
    law_whole_lines_reach_the_last_break(head, tail);
    law_lines_end_at_breaks(head, Seq::empty());
    law_lines_lose_only_breaks(Seq::empty());
    assert(head + seq![10u8] + Seq::<u8>::empty() =~= head + seq![10u8]);
    assert(lines(head) + Seq::<Seq<u8>>::empty() =~= lines(head));
}

/// The views of rows of bytes are those bytes, each row's in its place.
pub proof fn law_byte_rows_are_the_bytes(v: Seq<Vec<u8>>, i: int)
    ensures
        byte_rows(v).len() == v.len(),
        0 <= i < v.len() ==> byte_rows(v)[i] == v[i]@,
{
}

} // verus!
