//! The virtual file system: the root, the directory that a query conjures up, and the files in it.
use vstd::prelude::*;

use crate::text::str_eq;

verus! {

/// What a node is.
#[derive(Clone, Copy, PartialEq, Eq, Structural, Debug)]
pub enum NodeKind {
    Directory,
    RegularFile,
}

/// The attributes of a node. It has no device and no flags.
#[derive(Clone, Copy, PartialEq, Eq, Structural, Debug)]
pub struct Attributes {
    pub ino: u64,
    /// In bytes.
    pub size: u64,
    pub blocks: u64,
    /// When it was last modified, in seconds since the Unix epoch. Its other times are the epoch.
    pub mtime: u64,
    pub kind: NodeKind,
    pub perm: u16,
    pub nlink: u32,
    pub uid: u32,
    pub gid: u32,
    pub blksize: u32,
}

/// Why a request of the kernel fails.
#[derive(Clone, Copy, PartialEq, Eq, Structural, Debug)]
pub enum FsError {
    /// There is no such node.
    NoEntry,
    /// The embedding or the search failed.
    Io,
}

/// A file that a query found.
#[derive(Debug)]
pub struct FoundFile {
    pub name: String,
    /// Where it is on disk.
    pub path: String,
    /// In bytes.
    pub size: u64,
    /// When it was last modified, in seconds since the Unix epoch.
    pub mtime: u64,
}

/// The model of a [`FoundFile`].
pub struct FileView {
    pub name: Seq<char>,
    pub path: Seq<char>,
    pub size: u64,
    pub mtime: u64,
}

impl View for FoundFile {
    type V = FileView;

    open spec fn view(&self) -> FileView {
        FileView { name: self.name@, path: self.path@, size: self.size, mtime: self.mtime }
    }
}

/// The models of files.
pub open spec fn views(files: Seq<FoundFile>) -> Seq<FileView> {
    files.map_values(|f: FoundFile| f@)
}

/// An entry of a directory.
#[derive(Debug)]
pub struct DirEntry {
    pub ino: u64,
    pub offset: i64,
    pub kind: NodeKind,
    pub name: String,
}

/// The model of a [`DirEntry`].
pub struct EntryView {
    pub ino: int,
    pub offset: int,
    pub kind: NodeKind,
    pub name: Seq<char>,
}

impl View for DirEntry {
    type V = EntryView;

    open spec fn view(&self) -> EntryView {
        EntryView {
            ino: self.ino as int,
            offset: self.offset as int,
            kind: self.kind,
            name: self.name@,
        }
    }
}

/// The models of entries.
pub open spec fn entry_views(entries: Seq<DirEntry>) -> Seq<EntryView> {
    entries.map_values(|e: DirEntry| e@)
}

/// The root.
pub const ROOT: u64 = 1;

/// The directory that a query conjures up.
pub const QUERY_DIR: u64 = 2;

/// The first of the files in that directory; the others follow in order.
pub const FIRST_FILE: u64 = 3;

/// How many results a query has at most.
pub const QUERY_RESULTS: usize = 10;

/// For how many seconds the kernel may keep what it is told.
pub const TTL_SECONDS: u64 = 1;

/// The most files whose entries all have an offset.
pub const MAX_FILES: u64 = 0x7fff_ffff_ffff_fffd;

/// How many files a query is searched for: as many as it may have, and no more than any search.
pub fn query_limit(max_results: usize) -> (r: usize)
    ensures
        r == if max_results < QUERY_RESULTS {
            max_results
        } else {
            QUERY_RESULTS
        },
        max_results <= 10 ==> r == max_results,
        max_results > 10 ==> r == 10,
{
    if max_results < QUERY_RESULTS {
        max_results
    } else {
        QUERY_RESULTS
    }
}

/// Whether a node is a directory.
pub open spec fn is_directory(ino: u64) -> bool {
    ino == ROOT || ino == QUERY_DIR
}

/// The place of a node among the files that were found, where it is one of them.
pub open spec fn place_of(files: Seq<FileView>, ino: u64) -> Option<int> {
    if FIRST_FILE <= ino < FIRST_FILE + files.len() {
        Some(ino - FIRST_FILE)
    } else {
        None
    }
}

/// The attributes of a node: a directory that its owner may write and all may enter, or a file
/// that its owner may write and all may read. A file that was found has its size and its time.
pub open spec fn attributes_of(files: Seq<FileView>, ino: u64) -> Attributes {
    Attributes {
        ino,
        size: match place_of(files, ino) {
            Some(i) => files[i].size,
            None => 4096,
        },
        blocks: 1,
        mtime: match place_of(files, ino) {
            Some(i) => files[i].mtime,
            None => 0,
        },
        kind: if is_directory(ino) {
            NodeKind::Directory
        } else {
            NodeKind::RegularFile
        },
        perm: if is_directory(ino) {
            0o755
        } else {
            0o644
        },
        nlink: if is_directory(ino) {
            2
        } else {
            1
        },
        uid: 501,
        gid: 20,
        blksize: 512,
    }
}

/// The attributes of a directory that was just conjured up.
pub open spec fn conjured() -> Attributes {
    Attributes {
        ino: QUERY_DIR,
        size: 0,
        blocks: 0,
        mtime: 0,
        kind: NodeKind::Directory,
        perm: 0o755,
        nlink: 2,
        uid: 501,
        gid: 20,
        blksize: 512,
    }
}

/// The entries of a directory: itself, the root, and the files that were found where it is the one
/// that a query conjured up.
pub open spec fn entries_of(files: Seq<FileView>, ino: u64) -> Seq<EntryView> {
    let dots = seq![
        EntryView { ino: ino as int, offset: 0, kind: NodeKind::Directory, name: "."@ },
        EntryView { ino: ROOT as int, offset: 1, kind: NodeKind::Directory, name: ".."@ },
    ];
    let found = Seq::new(
        files.len(),
        |i: int|
            EntryView {
                ino: FIRST_FILE + i,
                offset: 2 + i,
                kind: NodeKind::RegularFile,
                name: files[i].name,
            },
    );
    if ino == QUERY_DIR {
        dots + found
    } else {
        dots
    }
}

/// The first place of a name among the files from a place on.
pub open spec fn place_of_name(files: Seq<FileView>, name: Seq<char>, from: int) -> Option<int>
    decreases files.len() - from,
{
    if from < 0 || from >= files.len() {
        None
    } else if files[from].name == name {
        Some(from)
    } else {
        place_of_name(files, name, from + 1)
    }
}

/// The next step in looking a name up.
#[derive(Clone, Copy, PartialEq, Eq, Structural, Debug)]
pub enum Lookup {
    /// Embed the name.
    Embed,
    /// Search for what was embedded.
    Search,
    /// Nothing more: this is the directory.
    Found(Attributes),
    /// Nothing more: there is no directory.
    Failed(FsError),
}

/// How a step of a lookup went.
#[derive(Debug)]
pub enum QueryOutcome {
    /// It failed.
    Failed,
    /// The name was embedded.
    Embedded,
    /// The search gave these files.
    Found(Vec<FoundFile>),
}

/// How looking a name up starts, by the node it is looked up in.
pub open spec fn looked_up(parent: u64) -> Lookup {
    if parent == ROOT {
        Lookup::Embed
    } else {
        Lookup::Failed(FsError::NoEntry)
    }
}

/// How a lookup goes on after a step, by how that step went. A step without its own outcome failed.
pub open spec fn lookup_after(now: Lookup, outcome: QueryOutcome) -> Lookup {
    match now {
        Lookup::Embed => if outcome is Embedded {
            Lookup::Search
        } else {
            Lookup::Failed(FsError::Io)
        },
        Lookup::Search => if outcome is Found {
            Lookup::Found(conjured())
        } else {
            Lookup::Failed(FsError::Io)
        },
        Lookup::Found(attributes) => Lookup::Found(attributes),
        Lookup::Failed(cause) => Lookup::Failed(cause),
    }
}

/// The files in the directory of a query after a step of a lookup: those of the last search that
/// succeeded.
pub open spec fn files_after(
    files: Seq<FileView>,
    now: Lookup,
    outcome: QueryOutcome,
) -> Seq<FileView> {
    match outcome {
        QueryOutcome::Found(found) => if now is Search {
            views(found@)
        } else {
            files
        },
        _ => files,
    }
}

/// The file system.
pub struct OmitFs {
    next_inode: u64,
    files: Vec<FoundFile>,
}

impl OmitFs {
    /// The first number that a node but the root gets.
    pub closed spec fn next_inode(self) -> u64 {
        self.next_inode
    }

    /// The files in the directory of a query.
    pub closed spec fn files(self) -> Seq<FileView> {
        views(self.files@)
    }

    #[verifier::type_invariant]
    spec fn well_formed(self) -> bool {
        self.files@.len() <= MAX_FILES
    }

    /// Starts with the root alone.
    pub fn new() -> (r: OmitFs)
        ensures
            r.next_inode() == QUERY_DIR,
            r.files() == Seq::<FileView>::empty(),
    {
        let r: OmitFs = OmitFs { next_inode: QUERY_DIR, files: Vec::new() };
        assert(r.files() =~= Seq::<FileView>::empty());
        r
    }

    /// Starts to look a name up. In the root it is a query, and elsewhere there is nothing.
    pub fn lookup(&self, parent: u64) -> (r: Lookup)
        ensures
            r == looked_up(parent),
    {
        if parent == ROOT {
            Lookup::Embed
        } else {
            Lookup::Failed(FsError::NoEntry)
        }
    }

    /// Fills the directory of a query with the files that were found.
    pub fn found(&mut self, files: Vec<FoundFile>)
        requires
            files@.len() <= MAX_FILES,
        ensures
            final(self).files() == views(files@),
            final(self).next_inode() == old(self).next_inode(),
    {
        self.files = files;
    }

    /// Decides how a lookup goes on after a step, by how that step went. The directory of a query
    /// then holds the files that its search gave.
    pub fn proceed(&mut self, now: Lookup, outcome: QueryOutcome) -> (r: Lookup)
        requires
            outcome matches QueryOutcome::Found(files) ==> files@.len() <= MAX_FILES,
        ensures
            r == lookup_after(now, outcome),
            final(self).files() == files_after(old(self).files(), now, outcome),
            final(self).next_inode() == old(self).next_inode(),
    {
        match now {
            Lookup::Embed => match outcome {
                QueryOutcome::Embedded => Lookup::Search,
                _ => Lookup::Failed(FsError::Io),
            },
            Lookup::Search => match outcome {
                QueryOutcome::Found(files) => {
                    self.found(files);
                    Lookup::Found(
                        Attributes {
                            ino: QUERY_DIR,
                            size: 0,
                            blocks: 0,
                            mtime: 0,
                            kind: NodeKind::Directory,
                            perm: 0o755,
                            nlink: 2,
                            uid: 501,
                            gid: 20,
                            blksize: 512,
                        },
                    )
                },
                _ => Lookup::Failed(FsError::Io),
            },
            _ => now,
        }
    }

    /// Where a file that was found is on disk, by its node.
    pub fn path_at(&self, ino: u64) -> (r: Option<&str>)
        ensures
            match r {
                Some(p) => place_of(self.files(), ino) matches Some(i) && p@
                    == self.files()[i].path,
                None => place_of(self.files(), ino) is None,
            },
    {
        match self.file_at(ino) {
            Some(i) => Some(self.files[i].path.as_str()),
            None => None,
        }
    }

    fn file_at(&self, ino: u64) -> (r: Option<usize>)
        ensures
            match r {
                Some(i) => place_of(self.files(), ino) == Some(i as int),
                None => place_of(self.files(), ino) is None,
            },
    {
        if ino >= FIRST_FILE && ino - FIRST_FILE < self.files.len() as u64 {
            Some((ino - FIRST_FILE) as usize)
        } else {
            None
        }
    }

    /// The attributes of a node. A file that was found has its own size and time.
    pub fn getattr(&self, ino: u64) -> (r: Attributes)
        ensures
            r == attributes_of(self.files(), ino),
            FIRST_FILE <= ino < FIRST_FILE + self.files().len() ==> r.size == self.files()[ino
                - FIRST_FILE].size && r.mtime == self.files()[ino - FIRST_FILE].mtime,
    {
        let directory: bool = ino == ROOT || ino == QUERY_DIR;
        let (size, mtime): (u64, u64) = match self.file_at(ino) {
            Some(i) => (self.files[i].size, self.files[i].mtime),
            None => (4096, 0),
        };
        Attributes {
            ino,
            size,
            blocks: 1,
            mtime,
            kind: if directory {
                NodeKind::Directory
            } else {
                NodeKind::RegularFile
            },
            perm: if directory {
                0o755
            } else {
                0o644
            },
            nlink: if directory {
                2
            } else {
                1
            },
            uid: 501,
            gid: 20,
            blksize: 512,
        }
    }

    /// The attributes of a file by its name, where the node it is looked up in is the directory of
    /// a query and holds one of that name.
    pub fn child(&self, parent: u64, name: &str) -> (r: Option<Attributes>)
        ensures
            match place_of_name(self.files(), name@, 0) {
                Some(i) => if parent == QUERY_DIR {
                    r == Some(attributes_of(self.files(), (FIRST_FILE + i) as u64))
                } else {
                    r is None
                },
                None => r is None,
            },
    {
        proof {
            use_type_invariant(self);
        }
        if parent != QUERY_DIR {
            return None;
        }
        let n: usize = self.files.len();
        let mut i: usize = 0;
        while i < n
            invariant
                i <= n,
                n == self.files@.len(),
                n <= MAX_FILES,
                parent == QUERY_DIR,
                place_of_name(self.files(), name@, 0) == place_of_name(
                    self.files(),
                    name@,
                    i as int,
                ),
            decreases n - i,
        {
            assert(self.files()[i as int].name == self.files@[i as int].name@);
            if str_eq(self.files[i].name.as_str(), name) {
                return Some(self.getattr(FIRST_FILE + i as u64));
            }
            i = i + 1;
        }
        None
    }

    /// The entries of a directory from an offset on: all of them from the start, and nothing after
    /// that.
    pub fn readdir(&self, ino: u64, offset: i64) -> (r: Result<Vec<DirEntry>, FsError>)
        ensures
            is_directory(ino) <==> r is Ok,
            r matches Err(e) ==> e == FsError::NoEntry,
            r matches Ok(list) ==> entry_views(list@) == if offset == 0 {
                entries_of(self.files(), ino)
            } else {
                Seq::empty()
            },
            ino == QUERY_DIR && offset == 0 ==> (r matches Ok(list) && list@.len() == 2
                + self.files().len() && forall|i: int|
                0 <= i < self.files().len() ==> (#[trigger] list@[2 + i]).name@
                    == self.files()[i].name && list@[2 + i].ino == FIRST_FILE + i),
    {
        proof {
            use_type_invariant(self);
        }
        if ino != ROOT && ino != QUERY_DIR {
            return Err(FsError::NoEntry);
        }
        let mut list: Vec<DirEntry> = Vec::new();
        if offset != 0 {
            assert(entry_views(list@) =~= Seq::<EntryView>::empty());
            return Ok(list);
        }
        list.push(DirEntry { ino, offset: 0, kind: NodeKind::Directory, name: ".".to_owned() });
        list.push(
            DirEntry { ino: ROOT, offset: 1, kind: NodeKind::Directory, name: "..".to_owned() },
        );
        let ghost all = entries_of(self.files(), ino);
        assert(entry_views(list@) =~= all.take(2));
        if ino == QUERY_DIR {
            let n: usize = self.files.len();
            let mut i: usize = 0;
            while i < n
                invariant
                    i <= n,
                    n == self.files@.len(),
                    n <= MAX_FILES,
                    all == entries_of(self.files(), QUERY_DIR),
                    list@.len() == 2 + i,
                    entry_views(list@) =~= all.take(2 + i),
                decreases n - i,
            {
                let ghost before = entry_views(list@);
                let entry: DirEntry = DirEntry {
                    ino: FIRST_FILE + i as u64,
                    offset: 2 + i as i64,
                    kind: NodeKind::RegularFile,
                    name: self.files[i].name.clone(),
                };
                list.push(entry);
                assert(entry_views(list@) =~= before.push(entry@));
                assert(all[2 + i] == entry@);
                i = i + 1;
            }
            assert(all.take(2 + n) =~= all);
            assert forall|i: int| 0 <= i < self.files().len() implies (
            #[trigger] list@[2 + i]).name@ == self.files()[i].name && list@[2 + i].ino == FIRST_FILE
                + i by {
                assert(entry_views(list@)[2 + i] == all[2 + i]);
            }
        } else {
            assert(all.take(2) =~= all);
        }
        Ok(list)
    }
}

/// What a lookup tells of the directory it conjures up agrees with what the kernel is told of that
/// node later, but for its size and its blocks.
pub proof fn law_lookup_agrees_with_getattr(files: Seq<FileView>)
    ensures
        attributes_of(files, conjured().ino) == (Attributes { size: 4096, blocks: 1, ..conjured() }),
{
}

/// A lookup finds its directory exactly where the name is looked up in the root and both the
/// embedding and the search succeed. Elsewhere there is no such entry, and otherwise it failed.
pub proof fn law_lookup_succeeds_in_the_root(
    parent: u64,
    embedding: QueryOutcome,
    search: QueryOutcome,
)
    ensures
        ({
            let end = lookup_after(lookup_after(looked_up(parent), embedding), search);
            let both = embedding is Embedded && search is Found;
            &&& end == Lookup::Found(conjured()) <==> parent == ROOT && both
            &&& end == Lookup::Failed(FsError::NoEntry) <==> parent != ROOT
            &&& end == Lookup::Failed(FsError::Io) <==> parent == ROOT && !both
        }),
{
}

/// The directory of a query lists the files that its search gave, each once and in their order,
/// and each is a file with its own size and time, that its owner may write and all may read.
pub proof fn law_queries_list_what_they_found(
    before: Seq<FileView>,
    embedding: QueryOutcome,
    found: Vec<FoundFile>,
    i: int,
)
    requires
        embedding is Embedded,
        found@.len() <= MAX_FILES,
        0 <= i < found@.len(),
    ensures
        ({
            let search = lookup_after(looked_up(ROOT), embedding);
            let files = files_after(before, search, QueryOutcome::Found(found));
            let entries = entries_of(files, QUERY_DIR);
            let attributes = attributes_of(files, entries[2 + i].ino as u64);
            &&& lookup_after(search, QueryOutcome::Found(found)) == Lookup::Found(conjured())
            &&& entries.len() == 2 + found@.len()
            &&& entries[2 + i].name == found@[i].name@
            &&& entries[2 + i].kind == NodeKind::RegularFile
            &&& attributes.kind == NodeKind::RegularFile && attributes.perm == 0o644
            &&& attributes.size == found@[i].size && attributes.mtime == found@[i].mtime
        }),
{
}

/// A lookup that fails leaves the directory of the last query as it was.
pub proof fn law_failed_queries_change_nothing(
    files: Seq<FileView>,
    now: Lookup,
    outcome: QueryOutcome,
)
    requires
        lookup_after(now, outcome) is Failed,
    ensures
        files_after(files, now, outcome) == files,
{
}

/// The root and the directory of a query are directories that all may enter; every other node is a
/// file that all may read. The files that were found are the nodes from three on, each with its own
/// size and time.
pub proof fn law_nodes_are_told_apart(files: Seq<FileView>, ino: u64)
    ensures
        attributes_of(files, ino).ino == ino,
        ino == 1 || ino == 2 ==> attributes_of(files, ino) == (Attributes {
            ino,
            size: 4096,
            blocks: 1,
            mtime: 0,
            kind: NodeKind::Directory,
            perm: 0o755,
            nlink: 2,
            uid: 501,
            gid: 20,
            blksize: 512,
        }),
        3 <= ino < 3 + files.len() ==> attributes_of(files, ino) == (Attributes {
            ino,
            size: files[ino - 3].size,
            blocks: 1,
            mtime: files[ino - 3].mtime,
            kind: NodeKind::RegularFile,
            perm: 0o644,
            nlink: 1,
            uid: 501,
            gid: 20,
            blksize: 512,
        }),
        ino == 0 || ino >= 3 + files.len() ==> attributes_of(files, ino) == (Attributes {
            ino,
            size: 4096,
            blocks: 1,
            mtime: 0,
            kind: NodeKind::RegularFile,
            perm: 0o644,
            nlink: 1,
            uid: 501,
            gid: 20,
            blksize: 512,
        }),
        place_of(files, ino) == (if 3 <= ino < 3 + files.len() {
            Some(ino - 3)
        } else {
            None::<int>
        }),
{
}

/// A directory lists itself and the root before anything else. The root lists nothing more, and the
/// directory of a query every file that was found, in order, by its whole name, whatever that is.
pub proof fn law_directories_list_everything(files: Seq<FileView>, ino: u64, i: int)
    ensures
        ino != 2 ==> entries_of(files, ino).len() == 2,
        entries_of(files, 2).len() == 2 + files.len(),
        entries_of(files, ino)[0] == (EntryView {
            ino: ino as int,
            offset: 0,
            kind: NodeKind::Directory,
            name: "."@,
        }),
        entries_of(files, ino)[1] == (EntryView {
            ino: 1,
            offset: 1,
            kind: NodeKind::Directory,
            name: ".."@,
        }),
        0 <= i < files.len() ==> entries_of(files, 2)[2 + i] == (EntryView {
            ino: 3 + i,
            offset: 2 + i,
            kind: NodeKind::RegularFile,
            name: files[i].name,
        }),
{
}

/// A name is that of the first file that has it, and of none where no file has it.
pub proof fn law_names_lead_to_the_first_file(
    files: Seq<FileView>,
    name: Seq<char>,
    from: int,
    i: int,
)
    requires
        0 <= from,
    ensures
        from <= i < files.len() && files[i].name == name && (forall|j: int|
            from <= j < i ==> (#[trigger] files[j]).name != name) ==> place_of_name(
            files,
            name,
            from,
        ) == Some(i),
        (forall|j: int| from <= j < files.len() ==> (#[trigger] files[j]).name != name)
            ==> place_of_name(files, name, from) is None,
    decreases files.len() - from,
{
    if from < files.len() {
        if files[from].name != name {
            law_names_lead_to_the_first_file(files, name, from + 1, i);
        }
    }
}

/// What a search gave is kept as it is, and replaces what an earlier one gave.
pub proof fn law_found_files_are_kept_whole(
    before: Seq<FileView>,
    found: Vec<FoundFile>,
    i: int,
)
    requires
        0 <= i < found@.len(),
    ensures
        files_after(before, Lookup::Search, QueryOutcome::Found(found)).len() == found@.len(),
        files_after(before, Lookup::Search, QueryOutcome::Found(found))[i] == (FileView {
            name: found@[i].name@,
            path: found@[i].path@,
            size: found@[i].size,
            mtime: found@[i].mtime,
        }),
{
}

/// The steps of a lookup: in the root it embeds the name, searches, and finds the directory.
pub proof fn law_lookups_go_in_order(found: Vec<FoundFile>, now: Lookup, outcome: QueryOutcome)
    ensures
        looked_up(1) == Lookup::Embed,
        lookup_after(Lookup::Embed, QueryOutcome::Embedded) == Lookup::Search,
        lookup_after(Lookup::Search, QueryOutcome::Found(found)) == Lookup::Found(
            Attributes {
                ino: 2,
                size: 0,
                blocks: 0,
                mtime: 0,
                kind: NodeKind::Directory,
                perm: 0o755,
                nlink: 2,
                uid: 501,
                gid: 20,
                blksize: 512,
            },
        ),
        now is Found || now is Failed ==> lookup_after(now, outcome) == now,
{
}

} // verus!
