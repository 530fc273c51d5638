use omitfs::rag::{
    build_context, build_prompt, generate_url, read_answer, send_error, split_lines, tags_url,
    AnswerStream, Asker, LineBuffer, OllamaError, StreamChunk,
};
use omitfs::reranker::Row;

fn row(name: &str, chunk: &str) -> Row {
    (name.into(), format!("/{name}"), chunk.into())
}

fn piece(response: &str, done: bool) -> Option<StreamChunk> {
    Some(StreamChunk { response: response.into(), done })
}

#[test]
fn the_context_numbers_its_sources() {
    assert_eq!(
        build_context(&vec![row("a.txt", "alpha"), row("b.txt", "beta")]),
        "[Source 1] (a.txt)\nalpha\n\n---\n\n[Source 2] (b.txt)\nbeta"
    );
    assert_eq!(build_context(&vec![]), "");
}

#[test]
fn prompts_hold_the_context_and_the_question() {
    let chunks = vec![row("a.txt", "alpha")];
    assert_eq!(
        build_prompt(Asker::Terminal, "why?", &chunks),
        "You are a helpful assistant with access to the user's local files.\n\
         Use ONLY the provided context to answer. If the answer is not in the context, say so clearly.\n\n\
         CONTEXT:\n[Source 1] (a.txt)\nalpha\n\n\
         QUESTION: why?\n\n\
         ANSWER:"
    );
    assert_eq!(
        build_prompt(Asker::Agent, "why?", &chunks),
        "You are a helpful assistant with access to the user's local files.\n\
         Use ONLY the provided context. If the answer is not present, say so.\n\n\
         CONTEXT:\n[Source 1] (a.txt)\nalpha\n\nQUESTION: why?\n\nANSWER:"
    );
    assert_eq!(
        build_prompt(Asker::Web, "why?", &chunks),
        "You are a helpful assistant. Use ONLY the context below to answer.\n\n\
         CONTEXT:\n[Source 1] (a.txt)\nalpha\n\nQUESTION: why?\n\nANSWER:"
    );
}

#[test]
fn addresses_have_one_slash() {
    assert_eq!(generate_url("http://localhost:11434"), "http://localhost:11434/api/generate");
    assert_eq!(generate_url("http://localhost:11434//"), "http://localhost:11434/api/generate");
    assert_eq!(tags_url("http://localhost:11434/"), "http://localhost:11434/api/tags");
}

#[test]
fn failures_are_explained() {
    let unreachable = send_error(true, "http://u".into(), "llama3".into(), "refused".into());
    assert_eq!(
        unreachable.message(),
        "Cannot reach Ollama at http://u.\n\
         Install  : https://ollama.com\n\
         Then run : ollama pull llama3\n\
         Then run : ollama serve\n\
         Error    : refused"
    );
    let failed = send_error(false, "http://u".into(), "llama3".into(), "timed out".into());
    assert_eq!(failed.message(), "Ollama request failed: timed out");
    let status = OllamaError::Status { status: "404 Not Found".into(), body: "no model".into() };
    assert_eq!(status.message(), "Ollama returned HTTP 404 Not Found: no model");
}

#[test]
fn the_stream_is_split_into_lines() {
    assert_eq!(split_lines(b"ab\n\ncd\n"), [b"ab".to_vec(), b"cd".to_vec()]);
    assert_eq!(split_lines(b"\n"), Vec::<Vec<u8>>::new());
    assert_eq!(split_lines(b"x"), [b"x".to_vec()]);
    assert_eq!(split_lines(b""), Vec::<Vec<u8>>::new());
}

#[test]
fn the_answer_is_read_up_to_its_end() {
    let (pieces, ended) =
        read_answer(&vec![piece("Hel", false), None, piece("lo", true), piece("more", false)]);
    assert_eq!(pieces, ["Hel", "lo"]);
    assert!(ended);
    let (pieces, ended) = read_answer(&vec![piece("a", false), piece("b", false)]);
    assert_eq!(pieces, ["a", "b"]);
    assert!(!ended);
    let (pieces, ended) = read_answer(&vec![None]);
    assert!(pieces.is_empty());
    assert!(!ended);
}

/// The answer in a stream, by the lines of each of its pieces.
fn answer(asker: Asker, pieces: Vec<Vec<Option<StreamChunk>>>) -> String {
    let mut stream = AnswerStream::new(asker);
    pieces.iter().flat_map(|lines| stream.take(lines)).collect()
}

#[test]
fn in_one_piece_nothing_is_read_after_the_end() {
    for asker in [Asker::Terminal, Asker::Web] {
        assert_eq!(answer(asker, vec![vec![piece("a", true), piece("b", false)]]), "a");
    }
}

#[test]
fn after_the_end_the_terminal_reads_on_and_the_web_page_stops() {
    let pieces = || vec![vec![piece("a", true)], vec![piece("b", false)], vec![piece("c", true)]];
    assert_eq!(answer(Asker::Terminal, pieces()), "abc");
    assert_eq!(answer(Asker::Web, pieces()), "a");
    let mut stream = AnswerStream::new(Asker::Web);
    assert!(!stream.is_over());
    stream.take(&vec![piece("a", true)]);
    assert!(stream.is_over());
    let mut stream = AnswerStream::new(Asker::Terminal);
    stream.take(&vec![piece("a", true)]);
    assert!(!stream.is_over());
}

#[test]
fn an_answer_does_not_depend_on_where_its_stream_is_cut() {
    let whole = || vec![piece("a", false), None, piece("b", false), piece("c", true)];
    for asker in [Asker::Terminal, Asker::Web] {
        for cut in 0..=4 {
            let mut first = whole();
            let second = first.split_off(cut);
            assert_eq!(answer(asker, vec![first, vec![], second]), "abc");
        }
    }
}

#[test]
fn a_cut_at_the_end_of_a_line_changes_nothing() {
    let mut lines = split_lines(b"one\ntwo");
    lines.extend(split_lines(b"three\n\nfour"));
    assert_eq!(lines, split_lines(b"one\ntwo\nthree\n\nfour"));
    assert!(lines.iter().all(|l| !l.is_empty() && !l.contains(&10)));
}

/// The lines of a stream that is cut at these places.
fn lines_of(stream: &[u8], cuts: &[usize]) -> Vec<Vec<u8>> {
    let mut buffer = LineBuffer::new();
    let mut lines = vec![];
    let mut from = 0;
    for cut in cuts {
        lines.extend(buffer.feed(&stream[from..*cut]));
        from = *cut;
    }
    lines.extend(buffer.feed(&stream[from..]));
    lines.extend(buffer.finish());
    lines
}

#[test]
fn lines_do_not_depend_on_where_the_stream_is_cut() {
    let stream = b"first line\n\nsecond\nthird without an end";
    let whole = split_lines(stream);
    assert_eq!(whole.len(), 3);
    for a in 0..=stream.len() {
        for b in a..=stream.len() {
            assert_eq!(lines_of(stream, &[a, b]), whole, "{a} {b}");
        }
    }
}

#[test]
fn a_line_is_given_once_it_is_whole() {
    let mut buffer = LineBuffer::new();
    assert!(buffer.feed(b"{\"resp").is_empty());
    assert_eq!(buffer.feed(b"onse\"}\n{"), [b"{\"response\"}".to_vec()]);
    assert_eq!(buffer.feed(b"}\n"), [b"{}".to_vec()]);
    assert!(buffer.finish().is_empty());
}
