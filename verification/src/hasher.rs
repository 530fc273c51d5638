//! Which files have changed since they were indexed: content hashes and the manifest of them.
use sha2::Digest;
use vstd::prelude::*;

use crate::text::str_eq;

verus! {

// ----------------------------------------------------------------------------------------------
// Content hashes
// ----------------------------------------------------------------------------------------------

/// The state of a SHA-256 computation.
#[verifier::external_type_specification]
#[verifier::external_body]
pub struct ExSha256(sha2::Sha256);

/// The bytes that a SHA-256 computation has taken in so far.
pub uninterp spec fn sha256_taken(state: sha2::Sha256) -> Seq<u8>;

/// The SHA-256 digest of a row of bytes.
pub uninterp spec fn sha256_digest(data: Seq<u8>) -> Seq<u8>;

/// The most bytes whose length in bits SHA-256 can write down.
pub const MAX_HASHED: u64 = 0x1fff_ffff_ffff_ffff;

/// `Sha256::new` of the crate `sha2` has taken nothing in.
#[verifier::external_body]
fn sha256_new() -> (r: sha2::Sha256)
    ensures
        sha256_taken(r) == Seq::<u8>::empty(),
{
    sha2::Sha256::new()
}

/// `Sha256::update` of the crate `sha2` takes bytes in behind those taken in before.
#[verifier::external_body]
fn sha256_update(state: &mut sha2::Sha256, data: &[u8])
    requires
        sha256_taken(*old(state)).len() + data@.len() <= MAX_HASHED,
    ensures
        sha256_taken(*final(state)) == sha256_taken(*old(state)) + data@,
{
    state.update(data)
}

/// `Sha256::finalize` of the crate `sha2`: the digest, of thirty-two bytes, of the bytes that were
/// taken in, however they were cut into pieces.
#[verifier::external_body]
fn sha256_finalize(state: sha2::Sha256) -> (r: Vec<u8>)
    requires
        sha256_taken(state).len() <= MAX_HASHED,
    ensures
        r@ == sha256_digest(sha256_taken(state)),
        r@.len() == 32,
{
    state.finalize().to_vec()
}

/// The lower-case hexadecimal numeral of a four-bit value.
pub open spec fn hex_digit(v: int) -> char {
    if v < 10 {
        ((48 + v) as u8) as char
    } else {
        ((97 + (v - 10)) as u8) as char
    }
}

/// The bytes in lower-case hexadecimal, two numerals each.
pub open spec fn hex(data: Seq<u8>) -> Seq<char> {
    Seq::new(
        2 * data.len(),
        |i: int|
            if i % 2 == 0 {
                hex_digit(data[i / 2] as int / 16)
            } else {
                hex_digit(data[i / 2] as int % 16)
            },
    )
}

fn hex_digit_of(v: u8) -> (r: char)
    requires
        v < 16,
    ensures
        r == hex_digit(v as int),
{
    if v < 10 {
        (48 + v) as char
    } else {
        (97 + (v - 10)) as char
    }
}

/// Writes bytes in lower-case hexadecimal.
pub fn to_hex(data: &Vec<u8>) -> (r: String)
    ensures
        r@ == hex(data@),
{
    let n: usize = data.len();
    let mut out: String = String::new();
    let mut i: usize = 0;
    while i < n
        invariant
            i <= n,
            n == data@.len(),
            out@ =~= hex(data@.take(i as int)),
        decreases n - i,
    {
        let ghost before = out@;
        out.push(hex_digit_of(data[i] / 16));
        out.push(hex_digit_of(data[i] % 16));
        assert forall|k: int| 0 <= k < out@.len() implies out@[k] == hex(data@.take(i + 1))[k] by {
            if k < 2 * i {
                assert(out@[k] == before[k]);
                assert(data@.take(i as int)[k / 2] == data@.take(i + 1)[k / 2]);
            }
        }
        i = i + 1;
    }
    assert(data@.take(n as int) =~= data@);
    out
}

/// A content hash in the making, fed piece by piece so that a file need not be in memory whole.
pub struct ContentHasher {
    state: sha2::Sha256,
}

/// The content hash of a row of bytes: its SHA-256 digest in hexadecimal.
pub open spec fn content_hash(data: Seq<u8>) -> Seq<char> {
    hex(sha256_digest(data))
}

impl ContentHasher {
    /// The bytes fed so far.
    pub closed spec fn fed(self) -> Seq<u8> {
        sha256_taken(self.state)
    }

    /// Starts with nothing.
    pub fn new() -> (r: ContentHasher)
        ensures
            r.fed() == Seq::<u8>::empty(),
    {
        ContentHasher { state: sha256_new() }
    }

    /// Feeds the next piece.
    pub fn update(&mut self, data: &[u8])
        requires
            old(self).fed().len() + data@.len() <= MAX_HASHED,
        ensures
            final(self).fed() == old(self).fed() + data@,
    {
        sha256_update(&mut self.state, data);
    }

    /// The hash of all that was fed: sixty-four hexadecimal numerals.
    pub fn finish(self) -> (r: String)
        requires
            self.fed().len() <= MAX_HASHED,
        ensures
            r@ == content_hash(self.fed()),
            r@.len() == 64,
    {
        let digest: Vec<u8> = sha256_finalize(self.state);
        to_hex(&digest)
    }
}

// ----------------------------------------------------------------------------------------------
// The manifest
// ----------------------------------------------------------------------------------------------

/// What is known of a file since it was last indexed.
#[derive(Debug)]
pub struct FileEntry {
    /// The hash of its content, in hexadecimal.
    pub sha256: String,
    /// When it was indexed, in seconds since the Unix epoch.
    pub indexed_at: u64,
    /// Its size in bytes.
    pub size: u64,
}

/// The model of a [`FileEntry`].
pub struct EntryView {
    pub sha256: Seq<char>,
    pub indexed_at: u64,
    pub size: u64,
}

impl View for FileEntry {
    type V = EntryView;

    open spec fn view(&self) -> EntryView {
        EntryView { sha256: self.sha256@, indexed_at: self.indexed_at, size: self.size }
    }
}

impl Clone for FileEntry {
    fn clone(&self) -> (r: FileEntry)
        ensures
            r@ == self@,
    {
        FileEntry { sha256: self.sha256.clone(), indexed_at: self.indexed_at, size: self.size }
    }
}

/// The map that a list of paths and entries spells out; of two entries for one path, the later
/// counts.
pub open spec fn as_map(list: Seq<(String, FileEntry)>) -> Map<Seq<char>, EntryView>
    decreases list.len(),
{
    if list.len() == 0 {
        Map::empty()
    } else {
        as_map(list.drop_last()).insert(list.last().0@, list.last().1@)
    }
}

/// The manifest that stored entries make up; an empty one where none were stored, or they could not
/// be read.
pub open spec fn loaded(stored: Option<Seq<(String, FileEntry)>>) -> Map<Seq<char>, EntryView> {
    match stored {
        Some(list) => as_map(list),
        None => Map::empty(),
    }
}

/// Whether no path occurs twice in a list.
pub open spec fn distinct_paths(list: Seq<(String, FileEntry)>) -> bool {
    forall|i: int, j: int|
        0 <= i < j < list.len() ==> (#[trigger] list[i]).0@ != (#[trigger] list[j]).0@
}

proof fn lemma_present(list: Seq<(String, FileEntry)>, i: int)
    requires
        distinct_paths(list),
        0 <= i < list.len(),
    ensures
        as_map(list).contains_key(list[i].0@),
        as_map(list)[list[i].0@] == list[i].1@,
    decreases list.len(),
{
    if i < list.len() - 1 {
        assert(distinct_paths(list.drop_last()));
        lemma_present(list.drop_last(), i);
        assert(list.drop_last()[i] == list[i]);
        assert(list[i].0@ != list[list.len() - 1].0@);
    }
}

proof fn lemma_absent(list: Seq<(String, FileEntry)>, path: Seq<char>)
    ensures
        as_map(list).contains_key(path) <==> exists|i: int|
            0 <= i < list.len() && (#[trigger] list[i]).0@ == path,
    decreases list.len(),
{
    if list.len() > 0 {
        let rest = list.drop_last();
        lemma_absent(rest, path);
        if as_map(rest).contains_key(path) {
            let i = choose|i: int| 0 <= i < rest.len() && (#[trigger] rest[i]).0@ == path;
            assert(list[i].0@ == path);
        }
        if exists|i: int| 0 <= i < list.len() && (#[trigger] list[i]).0@ == path {
            let i = choose|i: int| 0 <= i < list.len() && (#[trigger] list[i]).0@ == path;
            if i < rest.len() {
                assert(rest[i].0@ == path);
            }
        }
        if list.last().0@ == path {
            assert(list[list.len() - 1].0@ == path);
        }
    }
}

/// A list without repeated paths spells out the map that has its entries and no others.
proof fn lemma_map_is(list: Seq<(String, FileEntry)>, m: Map<Seq<char>, EntryView>)
    requires
        distinct_paths(list),
        forall|i: int|
            0 <= i < list.len() ==> m.contains_key((#[trigger] list[i]).0@) && m[list[i].0@]
                == list[i].1@,
        forall|path: Seq<char>|
            #[trigger] m.contains_key(path) ==> exists|i: int|
                0 <= i < list.len() && (#[trigger] list[i]).0@ == path,
    ensures
        as_map(list) == m,
{
    assert forall|path: Seq<char>| as_map(list).contains_key(path) <==> m.contains_key(path) by {
        lemma_absent(list, path);
        if as_map(list).contains_key(path) {
            let i = choose|i: int| 0 <= i < list.len() && (#[trigger] list[i]).0@ == path;
            assert(m.contains_key(list[i].0@));
        }
    }
    assert forall|path: Seq<char>| m.contains_key(path) implies as_map(list)[path] == m[path] by {
        let i = choose|i: int| 0 <= i < list.len() && (#[trigger] list[i]).0@ == path;
        lemma_present(list, i);
        assert(m[list[i].0@] == list[i].1@);
    }
    assert(as_map(list) =~= m);
}

/// Whether a file counts as new or changed: unless its size could be read and its entry has that
/// size, and its content could be hashed and its entry has that hash.
pub open spec fn stale(
    entries: Map<Seq<char>, EntryView>,
    path: Seq<char>,
    size: Option<u64>,
    hash: Option<Seq<char>>,
) -> bool {
    !(entries.contains_key(path) && size == Some(entries[path].size) && hash == Some(
        entries[path].sha256,
    ))
}

/// Whether staleness hangs on the content: the size could be read, and the entry has that size.
pub open spec fn hash_decides(
    entries: Map<Seq<char>, EntryView>,
    path: Seq<char>,
    size: Option<u64>,
) -> bool {
    entries.contains_key(path) && size == Some(entries[path].size)
}

/// The view of an optional text.
pub open spec fn text_option(s: Option<&str>) -> Option<Seq<char>> {
    match s {
        Some(t) => Some(t@),
        None => None,
    }
}

/// The persistent record of the files that were indexed: for each path, the hash and the size of
/// the content that was indexed.
pub struct HashManifest {
    entries: Vec<(String, FileEntry)>,
}

impl View for HashManifest {
    type V = Map<Seq<char>, EntryView>;

    closed spec fn view(&self) -> Map<Seq<char>, EntryView> {
        as_map(self.entries@)
    }
}

impl HashManifest {
    #[verifier::type_invariant]
    spec fn well_formed(self) -> bool {
        distinct_paths(self.entries@)
    }

    /// Takes the entries that were stored; where none were, or they could not be read, the
    /// manifest starts out empty.
    pub fn load(stored: Option<Vec<(String, FileEntry)>>) -> (r: HashManifest)
        ensures
            r@ == loaded(
                match stored {
                    Some(list) => Some(list@),
                    None => None,
                },
            ),
    {
        let mut manifest: HashManifest = HashManifest { entries: Vec::new() };
        match stored {
            None => manifest,
            Some(list) => {
                let n: usize = list.len();
                let mut i: usize = 0;
                assert(list@.take(0) =~= Seq::<(String, FileEntry)>::empty());
                while i < n
                    invariant
                        i <= n,
                        n == list@.len(),
                        manifest@ == as_map(list@.take(i as int)),
                    decreases n - i,
                {
                    assert(list@.take(i + 1).drop_last() =~= list@.take(i as int));
                    let path: String = list[i].0.clone();
                    manifest.put(path, list[i].1.clone());
                    i = i + 1;
                }
                assert(list@.take(n as int) =~= list@);
                manifest
            },
        }
    }

    /// The entries to store, one for each path: loading them gives this manifest back.
    pub fn save(&self) -> (r: &Vec<(String, FileEntry)>)
        ensures
            loaded(Some(r@)) == self@,
            distinct_paths(r@),
    {
        proof {
            use_type_invariant(self);
        }
        &self.entries
    }

    fn find(&self, path: &str) -> (r: Option<usize>)
        ensures
            match r {
                Some(i) => i < self.entries@.len() && self.entries@[i as int].0@ == path@
                    && self@.contains_key(path@) && self@[path@] == self.entries@[i as int].1@,
                None => !self@.contains_key(path@) && forall|k: int|
                    0 <= k < self.entries@.len() ==> (#[trigger] self.entries@[k]).0@ != path@,
            },
    {
        proof {
            use_type_invariant(self);
            lemma_absent(self.entries@, path@);
        }
        let n: usize = self.entries.len();
        let mut i: usize = 0;
        while i < n
            invariant
                i <= n,
                n == self.entries@.len(),
                distinct_paths(self.entries@),
                forall|k: int| 0 <= k < i ==> (#[trigger] self.entries@[k]).0@ != path@,
            decreases n - i,
        {
            if str_eq(self.entries[i].0.as_str(), path) {
                proof {
                    lemma_present(self.entries@, i as int);
                }
                return Some(i);
            }
            i = i + 1;
        }
        None
    }

    fn put(&mut self, path: String, entry: FileEntry)
        ensures
            final(self)@ == old(self)@.insert(path@, entry@),
    {
        proof {
            use_type_invariant(&*self);
        }
        let ghost before = self.entries@;
        let found: Option<usize> = self.find(path.as_str());
        match found {
            Some(i) => {
                let ghost after = before.update(i as int, (path, entry));
                proof {
                    assert(distinct_paths(after)) by {
                        assert forall|a: int, b: int| 0 <= a < b < after.len() implies (
                        #[trigger] after[a]).0@ != (#[trigger] after[b]).0@ by {
                            assert(after[a].0@ == before[a].0@);
                            assert(after[b].0@ == before[b].0@);
                        }
                    }
                    let m = as_map(before).insert(path@, entry@);
                    assert forall|k: int| 0 <= k < after.len() implies m.contains_key(
                        (#[trigger] after[k]).0@,
                    ) && m[after[k].0@] == after[k].1@ by {
                        if k != i {
                            assert(after[k] == before[k]);
                            assert(before[k].0@ != before[i as int].0@);
                            lemma_present(before, k);
                        }
                    }
                    assert forall|p: Seq<char>| #[trigger] m.contains_key(p) implies exists|k: int|
                        0 <= k < after.len() && (#[trigger] after[k]).0@ == p by {
                        if p == path@ {
                            assert(after[i as int].0@ == p);
                        } else {
                            lemma_absent(before, p);
                            let k = choose|k: int|
                                0 <= k < before.len() && (#[trigger] before[k]).0@ == p;
                            assert(after[k].0@ == p);
                        }
                    }
                    lemma_map_is(after, m);
                }
                let mut list: Vec<(String, FileEntry)> = Vec::new();
                std::mem::swap(&mut list, &mut self.entries);
                list.set(i, (path, entry));
                self.entries = list;
            },
            None => {
                let ghost after = before.push((path, entry));
                proof {
                    assert(distinct_paths(after)) by {
                        assert forall|a: int, b: int| 0 <= a < b < after.len() implies (
                        #[trigger] after[a]).0@ != (#[trigger] after[b]).0@ by {
                            assert(after[a] == before[a]);
                            if b < before.len() {
                                assert(after[b] == before[b]);
                            }
                        }
                    }
                    assert(after.drop_last() =~= before);
                }
                let mut list: Vec<(String, FileEntry)> = Vec::new();
                std::mem::swap(&mut list, &mut self.entries);
                list.push((path, entry));
                self.entries = list;
            },
        }
    }

    /// Whether the file's content has to be hashed to tell if it changed. Where the size alone
    /// tells, a large file is spared the hashing.
    pub fn needs_hash(&self, path: &str, size: Option<u64>) -> (r: bool)
        ensures
            r == hash_decides(self@, path@, size),
    {
        match self.find(path) {
            Some(i) => match size {
                Some(n) => n == self.entries[i].1.size,
                None => false,
            },
            None => false,
        }
    }

    /// Whether the file is new or its content has changed since it was indexed. `size` and `hash`
    /// are those of the file now, as far as they could be had.
    pub fn is_stale(&self, path: &str, size: Option<u64>, hash: Option<&str>) -> (r: bool)
        ensures
            r == stale(self@, path@, size, text_option(hash)),
    {
        match self.find(path) {
            None => true,
            Some(i) => match size {
                None => true,
                Some(n) => if n != self.entries[i].1.size {
                    true
                } else {
                    match hash {
                        None => true,
                        Some(h) => !str_eq(h, self.entries[i].1.sha256.as_str()),
                    }
                },
            },
        }
    }

    /// Records the file as indexed with this size and content hash.
    pub fn mark_indexed(&mut self, path: String, size: u64, hash: String, now: u64)
        ensures
            final(self)@ == old(self)@.insert(
                path@,
                (EntryView { sha256: hash@, indexed_at: now, size }),
            ),
    {
        self.put(path, FileEntry { sha256: hash, indexed_at: now, size });
    }

    /// Forgets the file.
    pub fn remove(&mut self, path: &str)
        ensures
            final(self)@ == old(self)@.remove(path@),
    {
        proof {
            use_type_invariant(&*self);
        }
        let ghost before = self.entries@;
        match self.find(path) {
            None => {
                assert(as_map(before).remove(path@) =~= as_map(before));
            },
            Some(i) => {
                let ghost after = before.remove(i as int);
                proof {
                    assert forall|a: int, b: int| 0 <= a < b < after.len() implies (
                    #[trigger] after[a]).0@ != (#[trigger] after[b]).0@ by {
                        let x = if a < i { a } else { a + 1 };
                        let y = if b < i { b } else { b + 1 };
                        assert(after[a] == before[x]);
                        assert(after[b] == before[y]);
                    }
                    let m = as_map(before).remove(path@);
                    assert forall|k: int| 0 <= k < after.len() implies m.contains_key(
                        (#[trigger] after[k]).0@,
                    ) && m[after[k].0@] == after[k].1@ by {
                        let x = if k < i { k } else { k + 1 };
                        assert(after[k] == before[x]);
                        assert(before[x].0@ != before[i as int].0@);
                        lemma_present(before, x);
                    }
                    assert forall|p: Seq<char>| #[trigger] m.contains_key(p) implies exists|k: int|
                        0 <= k < after.len() && (#[trigger] after[k]).0@ == p by {
                        lemma_absent(before, p);
                        let x = choose|x: int|
                            0 <= x < before.len() && (#[trigger] before[x]).0@ == p;
                        let k = if x < i { x } else { x - 1 };
                        assert(after[k].0@ == p);
                    }
                    lemma_map_is(after, m);
                }
                let mut list: Vec<(String, FileEntry)> = Vec::new();
                std::mem::swap(&mut list, &mut self.entries);
                let _gone = list.remove(i);
                self.entries = list;
            },
        }
    }
}

// ----------------------------------------------------------------------------------------------
// What the manifest promises
// ----------------------------------------------------------------------------------------------

/// A file that was just marked as indexed is stale exactly where its size or its content hash is no
/// longer the one that was recorded; for every other file nothing has changed.
pub proof fn law_marked_files_are_fresh(
    entries: Map<Seq<char>, EntryView>,
    path: Seq<char>,
    entry: EntryView,
    other: Seq<char>,
    size: Option<u64>,
    hash: Option<Seq<char>>,
)
    ensures
        stale(entries.insert(path, entry), path, size, hash) <==> size != Some(entry.size) || hash
            != Some(entry.sha256),
        other != path ==> stale(entries.insert(path, entry), other, size, hash) == stale(
            entries,
            other,
            size,
            hash,
        ),
{
}

/// A file that was forgotten is stale whatever it holds; for every other file nothing has changed.
pub proof fn law_forgotten_files_are_stale(
    entries: Map<Seq<char>, EntryView>,
    path: Seq<char>,
    other: Seq<char>,
    size: Option<u64>,
    hash: Option<Seq<char>>,
)
    ensures
        stale(entries.remove(path), path, size, hash),
        other != path ==> stale(entries.remove(path), other, size, hash) == stale(
            entries,
            other,
            size,
            hash,
        ),
{
}

/// Skipping the hash where it does not decide gives the same answer as any hash would.
pub proof fn law_size_check_is_safe(
    entries: Map<Seq<char>, EntryView>,
    path: Seq<char>,
    size: Option<u64>,
    hash: Option<Seq<char>>,
)
    requires
        !hash_decides(entries, path, size),
    ensures
        stale(entries, path, size, hash),
{
}

/// Each byte is written as two numerals of the sixteen, the one for its upper half first.
pub proof fn law_hexadecimal_goes_byte_by_byte(data: Seq<u8>, i: int)
    requires
        0 <= i < data.len(),
    ensures
        hex(data).len() == 2 * data.len(),
        hex(data)[2 * i] == "0123456789abcdef"@[data[i] as int / 16],
        hex(data)[2 * i + 1] == "0123456789abcdef"@[data[i] as int % 16],
{
    reveal_strlit("0123456789abcdef");
    lemma_hex_numerals(data[i] as int / 16);
    lemma_hex_numerals(data[i] as int % 16);
    assert((2 * i) % 2 == 0 && (2 * i) / 2 == i);
    assert((2 * i + 1) % 2 == 1 && (2 * i + 1) / 2 == i);
}

proof fn lemma_hex_numerals(v: int)
    requires
        0 <= v < 16,
    ensures
        hex_digit(v) == "0123456789abcdef"@[v],
{
    reveal_strlit("0123456789abcdef");
    assert("0123456789abcdef"@[0] == '0' && "0123456789abcdef"@[1] == '1' && "0123456789abcdef"@[2]
        == '2' && "0123456789abcdef"@[3] == '3' && "0123456789abcdef"@[4] == '4'
        && "0123456789abcdef"@[5] == '5' && "0123456789abcdef"@[6] == '6' && "0123456789abcdef"@[7]
        == '7' && "0123456789abcdef"@[8] == '8' && "0123456789abcdef"@[9] == '9'
        && "0123456789abcdef"@[10] == 'a' && "0123456789abcdef"@[11] == 'b'
        && "0123456789abcdef"@[12] == 'c' && "0123456789abcdef"@[13] == 'd'
        && "0123456789abcdef"@[14] == 'e' && "0123456789abcdef"@[15] == 'f');
    assert(hex_digit(v) as int == if v < 10 {
        48 + v
    } else {
        87 + v
    });
}

/// A content hash is the digest of the whole content in hexadecimal: contents with one digest have
/// one hash, and contents with different digests of the same length have different hashes.
pub proof fn law_content_hashes_tell_digests_apart(a: Seq<u8>, b: Seq<u8>)
    requires
        sha256_digest(a).len() == sha256_digest(b).len(),
    ensures
        content_hash(a) == content_hash(b) <==> sha256_digest(a) == sha256_digest(b),
{
    let x = sha256_digest(a);
    let y = sha256_digest(b);
    if content_hash(a) == content_hash(b) {
        assert forall|i: int| 0 <= i < x.len() implies x[i] == y[i] by {
            law_hexadecimal_goes_byte_by_byte(x, i);
            law_hexadecimal_goes_byte_by_byte(y, i);
            lemma_numerals_differ(x[i] as int / 16, y[i] as int / 16);
            lemma_numerals_differ(x[i] as int % 16, y[i] as int % 16);
        }
        assert(x =~= y);
    }
}

proof fn lemma_numerals_differ(v: int, w: int)
    requires
        0 <= v < 16,
        0 <= w < 16,
        "0123456789abcdef"@[v] == "0123456789abcdef"@[w],
    ensures
        v == w,
{
    lemma_hex_numerals(v);
    lemma_hex_numerals(w);
    assert(hex_digit(v) as int == if v < 10 {
        48 + v
    } else {
        87 + v
    });
    assert(hex_digit(w) as int == if w < 10 {
        48 + w
    } else {
        87 + w
    });
}

/// Stored entries are taken in one after the other, each in the place of an earlier one for the same
/// path; without any the manifest is empty.
pub proof fn law_stored_entries_are_all_loaded(
    list: Seq<(String, FileEntry)>,
    path: String,
    entry: FileEntry,
)
    ensures
        loaded(None) == Map::<Seq<char>, EntryView>::empty(),
        loaded(Some(Seq::empty())) == Map::<Seq<char>, EntryView>::empty(),
        loaded(Some(list.push((path, entry)))) == loaded(Some(list)).insert(
            path@,
            (EntryView {
                sha256: entry.sha256@,
                indexed_at: entry.indexed_at,
                size: entry.size,
            }),
        ),
{
    assert(list.push((path, entry)).drop_last() =~= list);
}

/// The content has to be hashed exactly where there is a hash with which the file would not be
/// stale; a file that the manifest does not know, or whose size could not be read, is stale.
pub proof fn law_the_hash_is_asked_for_where_it_decides(
    entries: Map<Seq<char>, EntryView>,
    path: Seq<char>,
    size: Option<u64>,
    hash: Option<Seq<char>>,
)
    ensures
        hash_decides(entries, path, size) <==> exists|h: Seq<char>|
            !#[trigger] stale(entries, path, size, Some(h)),
        !entries.contains_key(path) || size is None || hash is None ==> stale(
            entries,
            path,
            size,
            hash,
        ),
{
    if hash_decides(entries, path, size) {
        assert(!stale(entries, path, size, Some(entries[path].sha256)));
    }
}

} // verus!
