use omitfs::hasher::{to_hex, ContentHasher, FileEntry, HashManifest};

fn hash(pieces: &[&[u8]]) -> String {
    let mut h = ContentHasher::new();
    for p in pieces {
        h.update(p);
    }
    h.finish()
}

fn entry(sha256: &str, indexed_at: u64, size: u64) -> FileEntry {
    FileEntry { sha256: sha256.into(), indexed_at, size }
}

fn shape(manifest: &HashManifest) -> Vec<(String, String, u64, u64)> {
    manifest
        .save()
        .iter()
        .map(|(p, e)| (p.clone(), e.sha256.clone(), e.indexed_at, e.size))
        .collect()
}

#[test]
fn hashes_of_known_texts() {
    assert_eq!(
        hash(&[]),
        "e3b0c44298fc1c149afbf4c8996fb92427ae41e4649b934ca495991b7852b855"
    );
    assert_eq!(
        hash(&[b"abc"]),
        "ba7816bf8f01cfea414140de5dae2223b00361a396177a9cb410ff61f20015ad"
    );
}

#[test]
fn pieces_do_not_matter() {
    assert_eq!(hash(&[b"a", b"", b"bc"]), hash(&[b"abc"]));
    assert_ne!(hash(&[b"ab"]), hash(&[b"abc"]));
}

#[test]
fn hexadecimal_is_lower_case_with_leading_zeros() {
    assert_eq!(to_hex(&vec![0, 0x0f, 0xa0, 0xff]), "000fa0ff");
    assert_eq!(to_hex(&vec![]), "");
}

#[test]
fn an_unknown_file_is_stale() {
    let m = HashManifest::load(None);
    assert!(m.is_stale("/a", Some(3), Some("h")));
    assert!(!m.needs_hash("/a", Some(3)));
}

#[test]
fn a_marked_file_is_fresh_until_it_changes() {
    let mut m = HashManifest::load(None);
    m.mark_indexed("/a".into(), 3, "h".into(), 100);
    assert!(!m.is_stale("/a", Some(3), Some("h")));
    assert!(m.is_stale("/a", Some(3), Some("other")));
    assert!(m.is_stale("/a", Some(4), Some("h")));
    assert!(m.is_stale("/a", None, Some("h")));
    assert!(m.is_stale("/a", Some(3), None));
    assert!(m.is_stale("/b", Some(3), Some("h")));
}

#[test]
fn the_content_is_only_needed_where_the_size_is_the_same() {
    let mut m = HashManifest::load(None);
    m.mark_indexed("/a".into(), 3, "h".into(), 100);
    assert!(m.needs_hash("/a", Some(3)));
    assert!(!m.needs_hash("/a", Some(4)));
    assert!(!m.needs_hash("/a", None));
    // Where it is not needed, the file is stale whatever the hash.
    assert!(m.is_stale("/a", Some(4), None));
}

#[test]
fn marking_again_replaces_the_entry() {
    let mut m = HashManifest::load(None);
    m.mark_indexed("/a".into(), 3, "h".into(), 100);
    m.mark_indexed("/b".into(), 5, "i".into(), 101);
    m.mark_indexed("/a".into(), 4, "j".into(), 102);
    assert_eq!(
        shape(&m),
        [("/a".into(), "j".into(), 102, 4), ("/b".into(), "i".into(), 101, 5)]
    );
}

#[test]
fn a_forgotten_file_is_stale_again() {
    let mut m = HashManifest::load(None);
    m.mark_indexed("/a".into(), 3, "h".into(), 100);
    m.mark_indexed("/b".into(), 3, "h".into(), 100);
    m.remove("/a");
    m.remove("/never there");
    assert!(m.is_stale("/a", Some(3), Some("h")));
    assert!(!m.is_stale("/b", Some(3), Some("h")));
}

#[test]
fn what_was_stored_loads_back() {
    let mut m = HashManifest::load(None);
    m.mark_indexed("/a".into(), 3, "h".into(), 100);
    m.mark_indexed("/b".into(), 5, "i".into(), 101);
    let stored: Vec<(String, FileEntry)> = m.save().clone();
    assert_eq!(shape(&HashManifest::load(Some(stored))), shape(&m));
}

#[test]
fn of_two_stored_entries_for_a_path_the_later_counts() {
    let m = HashManifest::load(Some(vec![
        ("/a".into(), entry("old", 1, 1)),
        ("/a".into(), entry("new", 2, 2)),
    ]));
    assert_eq!(shape(&m), [("/a".into(), "new".into(), 2, 2)]);
}
