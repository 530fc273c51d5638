use omitfs::fuse::{
    query_limit, Attributes, FoundFile, FsError, Lookup, NodeKind, OmitFs, QueryOutcome, FIRST_FILE,
    QUERY_DIR, QUERY_RESULTS, ROOT, TTL_SECONDS,
};

fn file(name: &str, size: u64, mtime: u64) -> FoundFile {
    FoundFile { name: name.into(), path: format!("/raw/{name}"), size, mtime }
}

/// A file system whose last query found two files.
fn queried() -> OmitFs {
    let mut fs = OmitFs::new();
    let start = fs.lookup(ROOT);
    let search = fs.proceed(start, QueryOutcome::Embedded);
    let files = vec![file("2024_W2_form.md", 1234, 1_700_000_000), file("Q3_expenses.txt", 0, 7)];
    assert_eq!(fs.proceed(search, QueryOutcome::Found(files)), Lookup::Found(conjured()));
    fs
}

fn entries(fs: &OmitFs, ino: u64, offset: i64) -> Vec<(u64, i64, NodeKind, String)> {
    fs.readdir(ino, offset)
        .unwrap()
        .into_iter()
        .map(|e| (e.ino, e.offset, e.kind, e.name))
        .collect()
}

fn conjured() -> Attributes {
    Attributes {
        ino: 2,
        size: 0,
        blocks: 0,
        mtime: 0,
        kind: NodeKind::Directory,
        perm: 0o755,
        nlink: 2,
        uid: 501,
        gid: 20,
        blksize: 512,
    }
}

#[test]
fn the_constants() {
    assert_eq!((ROOT, QUERY_DIR, FIRST_FILE, QUERY_RESULTS, TTL_SECONDS), (1, 2, 3, 10, 1));
}

#[test]
fn no_more_files_are_searched_for_than_the_settings_allow() {
    assert_eq!(query_limit(10), 10);
    assert_eq!(query_limit(50), 10);
    assert_eq!(query_limit(3), 3);
}

#[test]
fn a_query_in_the_root_conjures_a_directory_up() {
    let mut fs = OmitFs::new();
    let start = fs.lookup(ROOT);
    assert_eq!(start, Lookup::Embed);
    let search = fs.proceed(start, QueryOutcome::Embedded);
    assert_eq!(search, Lookup::Search);
    let found = fs.proceed(search, QueryOutcome::Found(vec![]));
    assert_eq!(found, Lookup::Found(conjured()));
    assert_eq!(fs.proceed(found, QueryOutcome::Failed), found);
}

#[test]
fn elsewhere_there_is_nothing() {
    let mut fs = OmitFs::new();
    for parent in [0, 2, 3, u64::MAX] {
        assert_eq!(fs.lookup(parent), Lookup::Failed(FsError::NoEntry));
    }
    assert_eq!(
        fs.proceed(Lookup::Failed(FsError::NoEntry), QueryOutcome::Embedded),
        Lookup::Failed(FsError::NoEntry)
    );
}

#[test]
fn failures_of_a_query_are_failures_of_input_and_output() {
    let mut fs = queried();
    let before = entries(&fs, QUERY_DIR, 0);
    assert_eq!(fs.proceed(Lookup::Embed, QueryOutcome::Failed), Lookup::Failed(FsError::Io));
    assert_eq!(fs.proceed(Lookup::Search, QueryOutcome::Failed), Lookup::Failed(FsError::Io));
    // The directory of the last query is still there.
    assert_eq!(entries(&fs, QUERY_DIR, 0), before);
}

#[test]
fn the_directory_of_a_query_lists_what_was_found() {
    let dir = NodeKind::Directory;
    let plain = NodeKind::RegularFile;
    assert_eq!(
        entries(&queried(), QUERY_DIR, 0),
        [
            (2, 0, dir, ".".to_string()),
            (1, 1, dir, "..".to_string()),
            (3, 2, plain, "2024_W2_form.md".to_string()),
            (4, 3, plain, "Q3_expenses.txt".to_string()),
        ]
    );
}

#[test]
fn the_next_query_replaces_what_was_found() {
    let mut fs = queried();
    fs.proceed(Lookup::Search, QueryOutcome::Found(vec![file("other", 5, 6)]));
    let names: Vec<String> = entries(&fs, QUERY_DIR, 0).into_iter().map(|e| e.3).collect();
    assert_eq!(names, [".", "..", "other"]);
    fs.found(vec![]);
    assert_eq!(entries(&fs, QUERY_DIR, 0).len(), 2);
}

#[test]
fn found_files_have_their_size_and_time() {
    let fs = queried();
    let a = fs.getattr(3);
    assert_eq!((a.ino, a.size, a.mtime), (3, 1234, 1_700_000_000));
    assert_eq!((a.kind, a.perm, a.nlink), (NodeKind::RegularFile, 0o644, 1));
    let b = fs.getattr(4);
    assert_eq!((b.ino, b.size, b.mtime), (4, 0, 7));
}

#[test]
fn attributes_of_other_nodes() {
    let fs = queried();
    for ino in [1, 2] {
        let a = fs.getattr(ino);
        assert_eq!((a.ino, a.size, a.blocks, a.mtime), (ino, 4096, 1, 0));
        assert_eq!((a.kind, a.perm, a.nlink), (NodeKind::Directory, 0o755, 2));
    }
    let a = fs.getattr(5);
    assert_eq!((a.ino, a.size, a.blocks, a.mtime), (5, 4096, 1, 0));
    assert_eq!((a.kind, a.perm, a.nlink), (NodeKind::RegularFile, 0o644, 1));
    assert_eq!((a.uid, a.gid, a.blksize), (501, 20, 512));
}

#[test]
fn found_files_are_known_by_name() {
    let fs = queried();
    assert_eq!(fs.child(QUERY_DIR, "Q3_expenses.txt"), Some(fs.getattr(4)));
    assert_eq!(fs.child(QUERY_DIR, "2024_W2_form.md"), Some(fs.getattr(3)));
    assert_eq!(fs.child(QUERY_DIR, "missing"), None);
    assert_eq!(fs.child(ROOT, "Q3_expenses.txt"), None);
    assert_eq!(fs.path_at(3), Some("/raw/2024_W2_form.md"));
    assert_eq!(fs.path_at(4), Some("/raw/Q3_expenses.txt"));
    assert_eq!(fs.path_at(5), None);
    assert_eq!(fs.path_at(2), None);
}

#[test]
fn a_directory_looks_the_same_later_but_for_its_size() {
    let later = queried().getattr(QUERY_DIR);
    assert_eq!(later, Attributes { size: 4096, blocks: 1, ..conjured() });
}

#[test]
fn directories_list_themselves_and_the_root() {
    let dir = NodeKind::Directory;
    let fs = queried();
    let root = [(1, 0, dir, ".".to_string()), (1, 1, dir, "..".to_string())];
    assert_eq!(entries(&fs, 1, 0), root);
    assert_eq!(entries(&fs, 1, 1), []);
    assert_eq!(entries(&fs, 2, 1), []);
    assert_eq!(entries(&fs, 2, -1), []);
    assert_eq!(fs.readdir(3, 0).unwrap_err(), FsError::NoEntry);
}
