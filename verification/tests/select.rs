use omitfs::select::{
    ask, destination, listing, open_with, pick, report, select, select_limit, transfer, Deed, Os,
    Selecting,
};

fn found() -> Vec<(String, String)> {
    vec![("a.txt".into(), "/raw/a.txt".into()), ("b.md".into(), "/raw/b.md".into())]
}

/// What a selection comes to by lines of input.
fn run(lines: &[&str]) -> Selecting {
    let mut now = Selecting::Pick;
    for line in lines {
        now = select(&found(), now, line, Some("/home/me".into()));
    }
    now
}

fn deed(lines: &[&str]) -> String {
    match run(lines) {
        Selecting::Ended { deed } => format!("{deed:?}"),
        other => panic!("{other:?}"),
    }
}

#[test]
fn results_are_listed_by_number() {
    assert_eq!(
        listing(&found()),
        ["  [1]  a.txt  →  /raw/a.txt", "  [2]  b.md  →  /raw/b.md"]
    );
    assert!(listing(&vec![]).is_empty());
}

#[test]
fn a_number_picks_a_result() {
    assert_eq!(pick("2\n", 3), Some(1));
    assert_eq!(pick(" +1 ", 3), Some(0));
    for line in ["0", "4", "x", "", "-1", "1.0", "99999999999999999999999"] {
        assert_eq!(pick(line, 3), None, "{line}");
    }
    assert_eq!(pick("1", 0), None);
}

#[test]
fn files_are_opened_printed_copied_and_moved() {
    assert_eq!(deed(&["1\n", "o\n"]), r#"Open { path: "/raw/a.txt" }"#);
    assert_eq!(deed(&["2", "p"]), r#"PrintPath { path: "/raw/b.md" }"#);
    assert_eq!(
        deed(&["1", "c", " /tmp/x \n"]),
        r#"Copy { from: "/raw/a.txt", to: "/tmp/x" }"#
    );
    assert_eq!(
        deed(&["2", "m", "~/kept.md"]),
        r#"Move { from: "/raw/b.md", to: "/home/me/kept.md" }"#
    );
}

#[test]
fn anything_else_quits() {
    for lines in [&["0"][..], &["9"], &["x"], &["1", "q"], &["1", "O"], &["1", ""]] {
        assert_eq!(deed(lines), "Quit", "{lines:?}");
    }
}

#[test]
fn a_deletion_has_to_be_confirmed() {
    assert_eq!(deed(&["1", "d", "y"]), r#"Delete { path: "/raw/a.txt" }"#);
    assert_eq!(deed(&["1", "d", " Y \n"]), r#"Delete { path: "/raw/a.txt" }"#);
    for line in ["n", "", "yes", "N"] {
        assert_eq!(deed(&["1", "d", line]), "Abort", "{line}");
    }
}

#[test]
fn a_selection_stays_at_its_end() {
    assert_eq!(deed(&["1", "p", "d", "y"]), r#"PrintPath { path: "/raw/a.txt" }"#);
}

#[test]
fn a_selection_stays_with_its_file() {
    match run(&["2", "d"]) {
        Selecting::Confirm { name, path } => {
            assert_eq!((name.as_str(), path.as_str()), ("b.md", "/raw/b.md"));
        }
        other => panic!("{other:?}"),
    }
}

#[test]
fn a_leading_tilde_is_the_home_directory() {
    let at = |line: &str| destination(line, Some("/home/me".into()));
    assert_eq!(at("~"), "/home/me");
    assert_eq!(at(" ~/a b\n"), "/home/me/a b");
    assert_eq!(at("~other/a"), "~other/a");
    assert_eq!(at("a/~/b"), "a/~/b");
    assert_eq!(at(""), "");
    assert_eq!(destination("~/a", None), "~/a");
}

#[test]
fn copying_and_moving() {
    assert_eq!(
        format!("{:?}", transfer("a".into(), false, "b".into())),
        r#"Copy { from: "a", to: "b" }"#
    );
    assert_eq!(
        format!("{:?}", transfer("a".into(), true, "b".into())),
        r#"Move { from: "a", to: "b" }"#
    );
}

#[test]
fn questions() {
    assert_eq!(ask(&run(&[])).unwrap(), "\nSelect number (0 to quit): ");
    assert_eq!(ask(&run(&["1"])).unwrap(), "Choice: ");
    assert_eq!(ask(&run(&["1", "d"])).unwrap(), "Delete \"a.txt\"? [y/N]: ");
    assert_eq!(ask(&run(&["1", "c"])).unwrap(), "Destination path: ");
    assert_eq!(ask(&run(&["1", "m"])).unwrap(), "Destination path: ");
    assert_eq!(ask(&run(&["0"])), None);
}

#[test]
fn what_was_done_is_reported() {
    assert_eq!(report(&Deed::Quit).unwrap(), "Quit.");
    assert_eq!(report(&Deed::Abort).unwrap(), "Aborted.");
    assert_eq!(report(&Deed::Delete { path: "p".into() }).unwrap(), "Deleted.");
    assert_eq!(report(&Deed::PrintPath { path: "p".into() }).unwrap(), "\n📂  p");
    assert_eq!(
        report(&Deed::Copy { from: "p".into(), to: "q".into() }).unwrap(),
        "Copied → q"
    );
    assert_eq!(
        report(&Deed::Move { from: "p".into(), to: "q".into() }).unwrap(),
        "Moved → q"
    );
    assert_eq!(report(&Deed::Open { path: "p".into() }), None);
}

#[test]
fn files_are_opened_with_the_editor_or_as_the_system_does() {
    let with = |editor: Option<&str>, os: Os| {
        let launch = open_with(editor.map(String::from), os, "/f");
        (launch.program, launch.arguments.join(" "))
    };
    for os in [Os::MacOs, Os::Windows, Os::Other] {
        assert_eq!(with(Some("vim"), os), ("vim".into(), "/f".into()));
    }
    assert_eq!(with(None, Os::MacOs), ("open".into(), "/f".into()));
    assert_eq!(with(None, Os::Other), ("xdg-open".into(), "/f".into()));
    assert_eq!(with(None, Os::Windows), ("cmd".into(), "/C start  /f".into()));
}

#[test]
fn no_more_files_are_looked_for_than_the_settings_allow() {
    assert_eq!(select_limit(10), 10);
    assert_eq!(select_limit(50), 10);
    assert_eq!(select_limit(3), 3);
    assert_eq!(select_limit(0), 0);
}
