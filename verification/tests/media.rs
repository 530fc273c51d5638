use omitfs::ocr;
use omitfs::ocr::{extract_image_text, Ocr};
use omitfs::step::Outcome;
use omitfs::whisper_transcribe;
use omitfs::whisper_transcribe::{candidate, output_dir, transcribe, Transcription};

fn text(s: &str) -> Outcome {
    Outcome::Text(s.into())
}

/// The steps of getting the text of an image, by how each goes.
fn image(outcomes: Vec<Outcome>) -> Vec<String> {
    let mut now = Ocr::Probe;
    let mut steps = vec![];
    for outcome in outcomes {
        now = extract_image_text(now, outcome);
        steps.push(format!("{now:?}"));
    }
    steps
}

/// The steps of a transcription, by how each goes.
fn recording(named: bool, outcomes: Vec<Outcome>) -> Vec<String> {
    let mut now = Transcription::Probe { tried: 0 };
    let mut steps = vec![];
    for outcome in outcomes {
        now = transcribe(now, named, outcome);
        steps.push(format!("{now:?}"));
    }
    steps
}

#[test]
fn the_tesseract_command() {
    assert_eq!(ocr::program(), "tesseract");
    assert_eq!(ocr::probe_argument(), "--version");
    assert_eq!(ocr::trailing_arguments(), ["-l", "eng"]);
    assert_eq!(ocr::output_base(), "omitfs_ocr_out");
    assert_eq!(ocr::output_file(), "omitfs_ocr_out.txt");
}

#[test]
fn the_text_of_an_image() {
    assert_eq!(
        image(vec![
            Outcome::Succeeded,
            Outcome::Failed,
            Outcome::Succeeded,
            text("seen"),
            Outcome::Failed,
            Outcome::Failed,
        ]),
        [
            "ClearStale",
            "Run",
            "Read",
            r#"CleanUp { text: Some("seen") }"#,
            r#"Done { text: Some("seen") }"#,
            r#"Done { text: Some("seen") }"#,
        ]
    );
}

#[test]
fn an_image_without_text() {
    let after = |read: Outcome| {
        image(vec![Outcome::Succeeded, Outcome::Succeeded, Outcome::Succeeded, read])
            .pop()
            .unwrap()
    };
    assert_eq!(after(text(" \n")), "CleanUp { text: None }");
    assert_eq!(after(Outcome::Failed), "CleanUp { text: None }");
}

#[test]
fn an_image_without_the_program() {
    assert_eq!(image(vec![Outcome::Failed]), ["Done { text: None }"]);
    assert_eq!(
        image(vec![Outcome::Succeeded, Outcome::Succeeded, Outcome::Failed]).pop().unwrap(),
        "Done { text: None }"
    );
}

#[test]
fn the_whisper_programs() {
    assert_eq!(candidate(0), Some("whisper"));
    assert_eq!(candidate(1), Some("whisper-cpp"));
    assert_eq!(candidate(2), Some("main"));
    assert_eq!(candidate(3), None);
    assert_eq!(whisper_transcribe::probe_argument(), "--help");
    assert_eq!(
        whisper_transcribe::trailing_arguments("/tmp/d"),
        ["--output_format", "txt", "--output_dir", "/tmp/d", "--model", "base"]
    );
    assert_eq!(whisper_transcribe::output_file("notes"), "notes.txt");
}

#[test]
fn every_run_has_its_own_directory() {
    assert_eq!(output_dir(42, "ThreadId(7)"), "omitfs_whisper_42_ThreadId_7_");
    assert_eq!(output_dir(1, "a b"), "omitfs_whisper_1_a_b");
    let mut names: Vec<String> = vec![];
    for pid in [1, 11, 42] {
        for thread in ["ThreadId(1)", "ThreadId(11)", "ThreadId(2)"] {
            names.push(output_dir(pid, thread));
        }
    }
    names.sort();
    names.dedup();
    assert_eq!(names.len(), 9);
}

#[test]
fn a_transcription() {
    assert_eq!(
        recording(
            true,
            vec![
                Outcome::Failed,
                Outcome::Succeeded,
                Outcome::Succeeded,
                Outcome::Succeeded,
                text("heard"),
                Outcome::Failed,
                Outcome::Succeeded,
            ]
        ),
        [
            "Probe { tried: 1 }",
            "MakeDir { program: 1 }",
            "Run { program: 1 }",
            "Read",
            r#"CleanUp { text: Some("heard") }"#,
            r#"Done { text: Some("heard") }"#,
            r#"Done { text: Some("heard") }"#,
        ]
    );
}

#[test]
fn a_transcription_without_any_program() {
    assert_eq!(
        recording(true, vec![Outcome::Failed, Outcome::Failed, Outcome::Failed]),
        ["Probe { tried: 1 }", "Probe { tried: 2 }", "Done { text: None }"]
    );
}

#[test]
fn a_recording_without_a_name_is_not_transcribed() {
    assert_eq!(recording(false, vec![Outcome::Succeeded]), ["Done { text: None }"]);
}

#[test]
fn a_directory_is_removed_however_a_transcription_goes() {
    let failed = recording(
        true,
        vec![Outcome::Succeeded, Outcome::Succeeded, Outcome::Failed, Outcome::Succeeded],
    );
    assert_eq!(failed[2..], ["CleanUp { text: None }", "Done { text: None }"]);
    let blank = recording(
        true,
        vec![Outcome::Succeeded, Outcome::Succeeded, Outcome::Succeeded, text("\t")],
    );
    assert_eq!(blank[3], "CleanUp { text: None }");
    let unread = recording(
        true,
        vec![Outcome::Succeeded, Outcome::Succeeded, Outcome::Succeeded, Outcome::Failed],
    );
    assert_eq!(unread[3], "CleanUp { text: None }");
    // Without the directory there is none to remove.
    let none = recording(true, vec![Outcome::Succeeded, Outcome::Failed]);
    assert_eq!(none[1], "Done { text: None }");
}
