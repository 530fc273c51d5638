use omitfs::ingest::{
    chunk_text, chunk_text_by, count_stored, extract_text, file_kind, report_ingested, rows_for, should_ingest,
    FileContent, FileKind, CHUNK, OVERLAP,
};

fn words(n: usize) -> String {
    (0..n).map(|i| format!("w{i}")).collect::<Vec<_>>().join(" ")
}

#[test]
fn extensions_tell_the_kind_of_a_file() {
    assert_eq!(file_kind("pdf"), FileKind::Pdf);
    assert_eq!(file_kind("PDF"), FileKind::Pdf);
    for ext in [
        "jpg", "jpeg", "png", "gif", "exe", "dll", "so", "dylib", "zip", "tar", "gz", "bin",
        "class", "pyc", "JpEg",
    ] {
        assert_eq!(file_kind(ext), FileKind::Binary, "{ext}");
    }
    for ext in ["txt", "md", "rs", "", "pdfx"] {
        assert_eq!(file_kind(ext), FileKind::Plain, "{ext}");
    }
}

#[test]
fn plain_files_are_read_as_utf8() {
    let plain = |b: &[u8]| extract_text(FileContent::Plain(Some(b.to_vec())));
    assert_eq!(plain("héllo".as_bytes()), Some("héllo".to_string()));
    assert_eq!(plain(&[0xc3, 0x28]), None);
    assert_eq!(plain(b" \n\t "), None);
    assert_eq!(plain(b""), None);
    assert_eq!(plain("\u{2003}".as_bytes()), None);
    assert_eq!(extract_text(FileContent::Plain(None)), None);
}

#[test]
fn a_zero_near_the_front_makes_a_file_binary() {
    let mut bytes = vec![b'a'; 2000];
    bytes[1023] = 0;
    assert_eq!(extract_text(FileContent::Plain(Some(bytes.clone()))), None);
    bytes[1023] = b'a';
    bytes[1024] = 0;
    assert!(extract_text(FileContent::Plain(Some(bytes))).is_some());
}

#[test]
fn pdfs_give_their_text_unless_it_is_blank() {
    assert_eq!(
        extract_text(FileContent::Pdf(Some(" text ".into()))),
        Some(" text ".to_string())
    );
    assert_eq!(extract_text(FileContent::Pdf(Some("\n \n".into()))), None);
    assert_eq!(extract_text(FileContent::Pdf(None)), None);
    assert_eq!(extract_text(FileContent::Binary), None);
}

#[test]
fn short_texts_are_one_chunk() {
    assert_eq!(chunk_text("  one \n two\tthree "), ["one two three"]);
    assert_eq!(chunk_text(&words(CHUNK)), [words(CHUNK)]);
    assert_eq!(chunk_text(" \n "), Vec::<String>::new());
}

#[test]
fn long_texts_are_cut_with_an_overlap() {
    assert_eq!((CHUNK, OVERLAP), (200, 50));
    let chunks = chunk_text(&words(351));
    assert_eq!(chunks.len(), 3);
    let cut: Vec<Vec<&str>> = chunks.iter().map(|c| c.split(' ').collect()).collect();
    assert_eq!(cut[0].len(), 200);
    assert_eq!(cut[1].len(), 200);
    assert_eq!(cut[2], (300..351).map(|i| format!("w{i}")).collect::<Vec<_>>());
    assert_eq!(cut[0][150..], cut[1][..50]);
    assert_eq!(cut[1][150..], cut[2][..50]);
    assert_eq!(cut[0][0], "w0");
    assert_eq!(cut[1][0], "w150");
}

#[test]
fn a_chunk_that_reaches_the_end_is_the_last() {
    assert_eq!(chunk_text(&words(201)).len(), 2);
    assert_eq!(chunk_text(&words(350)).len(), 2);
    assert_eq!(chunk_text(&words(500)).len(), 3);
    assert_eq!(chunk_text(&words(501)).len(), 4);
}

#[test]
fn every_word_is_in_a_chunk() {
    for n in [1, 199, 200, 201, 349, 350, 351, 777] {
        let chunks = chunk_text(&words(n));
        for i in 0..n {
            let word = format!("w{i}");
            assert!(chunks.iter().any(|c| c.split(' ').any(|w| w == word)), "{i} of {n}");
        }
    }
}

#[test]
fn each_chunk_has_a_row_under_its_own_identifier() {
    let rows = rows_for("notes.md", "/raw/notes.md", vec!["one".into(), "two".into()]);
    assert_eq!(rows.len(), 2);
    assert_eq!(rows[0].chunk_text, "one");
    assert_eq!(rows[1].chunk_text, "two");
    for row in &rows {
        assert_eq!(row.filename, "notes.md");
        assert_eq!(row.physical_path, "/raw/notes.md");
        let id: Vec<char> = row.file_id.chars().collect();
        assert_eq!(id.len(), 36);
        assert_eq!(id[14], '4');
        for (i, c) in id.iter().enumerate() {
            if [8, 13, 18, 23].contains(&i) {
                assert_eq!(*c, '-');
            } else {
                assert!(c.is_ascii_digit() || ('a'..='f').contains(c));
            }
        }
    }
    assert_ne!(rows[0].file_id, rows[1].file_id);
}

#[test]
fn new_and_modified_files_are_ingested() {
    assert!(should_ingest(true, false, true));
    assert!(should_ingest(false, true, true));
    assert!(!should_ingest(false, false, true));
    assert!(!should_ingest(true, true, false));
}

#[test]
fn stored_chunks_are_counted() {
    assert_eq!(count_stored(&vec![true, false, true]), 2);
    assert_eq!(count_stored(&vec![false]), 0);
    assert_eq!(count_stored(&vec![]), 0);
}

#[test]
fn the_report_counts_the_chunks() {
    assert_eq!(report_ingested("a.txt", 12), "📄  Ingested a.txt → 12 chunk(s)");
    assert_eq!(report_ingested("b", 0), "📄  Ingested b → 0 chunk(s)");
}

#[test]
fn the_settings_say_how_a_text_is_cut() {
    let by = |n: usize, chunk: usize, overlap: usize| chunk_text_by(&words(n), chunk, overlap);
    assert_eq!(by(5, 2, 0).unwrap(), ["w0 w1", "w2 w3", "w4"]);
    assert_eq!(by(5, 3, 1).unwrap(), ["w0 w1 w2", "w2 w3 w4"]);
    assert_eq!(by(4, 2, 1).unwrap(), ["w0 w1", "w1 w2", "w2 w3"]);
    assert_eq!(by(3, 10, 9).unwrap(), ["w0 w1 w2"]);
    assert_eq!(by(0, 1, 0).unwrap(), Vec::<String>::new());
    assert_eq!(by(777, CHUNK, OVERLAP).unwrap(), chunk_text(&words(777)));
}

#[test]
fn chunks_that_share_all_their_words_cannot_be_cut() {
    assert_eq!(chunk_text_by("a b c", 2, 2), None);
    assert_eq!(chunk_text_by("a b c", 2, 3), None);
    assert_eq!(chunk_text_by("a b c", 0, 0), None);
    assert!(chunk_text_by("a b c", usize::MAX, 0).is_some());
}
