//! What is promised where files are looked at: of the virtual file system, the file manager, the
//! window, the programs that read images and recordings, and the model that embeds texts.
use vstd::prelude::*;

use crate::embedding::{best_device, model_source, prepare_tokens, DeviceKind, ModelSource};
use crate::fuse::{
    law_directories_list_everything, law_names_lead_to_the_first_file, law_nodes_are_told_apart,
    query_limit, Attributes, DirEntry, FoundFile, FsError, Lookup, NodeKind, OmitFs, QueryOutcome,
};
use crate::gui::{law_events_do_one_thing, react, server_arguments, window_url, DesktopEvent, WindowAction};
use crate::ocr::{extract_image_text, Ocr};
use crate::select::{
    ask, destination, law_a_tilde_is_the_home_directory, law_lines_do_what_they_say,
    law_numbers_pick_their_result, lemma_trimmed_between, listing, open_with, pick, report, select,
    select_limit, selected, stands_for, Deed, DeedView, Launch, Os, Selecting, SelectingView,
};
use crate::step::Outcome;
use crate::text::{numeral, texts, white_space};
use crate::whisper_transcribe::{
    candidate, law_directories_name_process_and_thread, output_dir, output_file, transcribe,
    Transcription,
};

verus! {

// ----------------------------------------------------------------------------------------------
// The virtual file system
// ----------------------------------------------------------------------------------------------

/// The root and the directory of a query are directories, and every other node is a file; a file
/// that was found has its own size and time, and its path on disk.
pub proof fn law_nodes_have_their_attributes(
    fs: &OmitFs,
    ino: u64,
    r: Attributes,
    path: Option<&str>,
)
    requires
        call_ensures(OmitFs::getattr, (fs, ino), r),
        call_ensures(OmitFs::path_at, (fs, ino), path),
    ensures
        r.ino == ino,
        r.kind == NodeKind::Directory <==> ino == 1 || ino == 2,
        r.perm == (if ino == 1 || ino == 2 {
            0o755u16
        } else {
            0o644u16
        }),
        3 <= ino < 3 + fs.files().len() ==> r.size == fs.files()[ino - 3].size && r.mtime
            == fs.files()[ino - 3].mtime && path is Some && path->0@ == fs.files()[ino - 3].path,
        !(3 <= ino < 3 + fs.files().len()) ==> r.size == 4096 && r.mtime == 0 && path is None,
{
    law_nodes_are_told_apart(fs.files(), ino);
}

/// A directory lists itself, the root and, where it is that of a query, every file that was found, in
/// order and by its whole name; from any further offset it lists nothing, and what is no directory
/// lists nothing at all.
pub proof fn law_directories_are_read_in_full(
    fs: &OmitFs,
    ino: u64,
    offset: i64,
    r: Result<Vec<DirEntry>, FsError>,
    i: int,
)
    requires
        call_ensures(OmitFs::readdir, (fs, ino, offset), r),
    ensures
        r is Ok <==> ino == 1 || ino == 2,
        r is Err ==> r->Err_0 == FsError::NoEntry,
        r is Ok && offset != 0 ==> r->Ok_0@.len() == 0,
        r is Ok && offset == 0 ==> {
            &&& r->Ok_0@.len() == (if ino == 2 {
                2 + fs.files().len()
            } else {
                2
            })
            &&& r->Ok_0@[0].name@ == "."@ && r->Ok_0@[0].ino == ino && r->Ok_0@[0].kind
                == NodeKind::Directory
            &&& r->Ok_0@[1].name@ == ".."@ && r->Ok_0@[1].ino == 1 && r->Ok_0@[1].kind
                == NodeKind::Directory
            &&& ino == 2 && 0 <= i < fs.files().len() ==> r->Ok_0@[2 + i].name@
                == fs.files()[i].name && r->Ok_0@[2 + i].ino == 3 + i && r->Ok_0@[2 + i].kind
                == NodeKind::RegularFile
        },
{
    law_directories_list_everything(fs.files(), ino, i);
    if r is Ok && offset == 0 {
        let list = r->Ok_0;
        let seen = crate::fuse::entry_views(list@);
        assert(seen.len() == list@.len());
        assert(seen[0] == list@[0]@ && seen[1] == list@[1]@);
        if ino == 2 && 0 <= i < fs.files().len() {
            assert(seen[2 + i] == list@[2 + i]@);
        }
    } else if r is Ok {
        assert(crate::fuse::entry_views(r->Ok_0@).len() == r->Ok_0@.len());
    }
}

/// A name in the directory of a query is that of the first file that has it, and there is none where
/// no file has it or it is looked for elsewhere.
pub proof fn law_children_are_found_by_name(
    fs: &OmitFs,
    parent: u64,
    name: &str,
    r: Option<Attributes>,
    i: int,
)
    requires
        call_ensures(OmitFs::child, (fs, parent, name), r),
        fs.files().len() <= 0x7fff_ffff_ffff_fffd,
    ensures
        parent == 2 && 0 <= i < fs.files().len() && fs.files()[i].name == name@ && (forall|j: int|
            0 <= j < i ==> (#[trigger] fs.files()[j]).name != name@) ==> r is Some && r->0.ino == 3
            + i && r->0.size == fs.files()[i].size && r->0.kind == NodeKind::RegularFile,
        (forall|j: int| 0 <= j < fs.files().len() ==> (#[trigger] fs.files()[j]).name != name@)
            ==> r is None,
        parent != 2 ==> r is None,
{
    law_names_lead_to_the_first_file(fs.files(), name@, 0, i);
    if 0 <= i < fs.files().len() {
        law_nodes_are_told_apart(fs.files(), (3 + i) as u64);
    }
}

/// A name is looked up in the root and nowhere else, and a query is searched for ten files at most.
pub proof fn law_names_are_looked_up_in_the_root(
    fs: &OmitFs,
    parent: u64,
    r: Lookup,
    max_results: usize,
    limit: usize,
)
    requires
        call_ensures(OmitFs::lookup, (fs, parent), r),
        call_ensures(query_limit, (max_results,), limit),
    ensures
        parent == 1 ==> r == Lookup::Embed,
        parent != 1 ==> r == Lookup::Failed(FsError::NoEntry),
        limit <= max_results && limit <= 10,
        limit == max_results || limit == 10,
{
}

// ----------------------------------------------------------------------------------------------
// The file manager
// ----------------------------------------------------------------------------------------------

/// Every result is listed, under its number and with its whole name and path.
pub proof fn law_every_result_is_listed(results: &Vec<(String, String)>, r: Vec<String>)
    requires
        call_ensures(listing, (results,), r),
    ensures
        r@.len() == results@.len(),
        forall|i: int|
            #![trigger r@[i]]
            0 <= i < r@.len() ==> r@[i]@ == "  ["@ + numeral((i + 1) as nat) + "]  "@
                + results@[i].0@ + "  →  "@ + results@[i].1@,
{
}

/// A number picks the result that is listed under it, whatever whitespace is around it.
pub proof fn law_listed_numbers_are_picked(
    line: &str,
    count: usize,
    r: Option<usize>,
    a: Seq<char>,
    n: nat,
    b: Seq<char>,
)
    requires
        call_ensures(pick, (line, count), r),
        line@ == a + numeral(n) + b,
        forall|i: int| 0 <= i < a.len() ==> white_space(#[trigger] a[i]),
        forall|i: int| 0 <= i < b.len() ==> white_space(#[trigger] b[i]),
    ensures
        1 <= n <= count ==> r is Some && r->0 + 1 == n,
        n == 0 || n > count ==> r is None,
{
    law_numbers_pick_their_result(a, n, b, count as nat);
}

/// A file that was picked is opened, printed, or asked about further by its letter, and any other
/// line ends the selection.
pub proof fn law_letters_choose_what_is_done(
    results: &Vec<(String, String)>,
    name: String,
    path: String,
    line: &str,
    home: Option<String>,
    r: Selecting,
    a: Seq<char>,
    text: Seq<char>,
    b: Seq<char>,
)
    requires
        call_ensures(select, (results, Selecting::Choose { name, path }, line, home), r),
        line@ == a + text + b,
        forall|i: int| 0 <= i < a.len() ==> white_space(#[trigger] a[i]),
        forall|i: int| 0 <= i < b.len() ==> white_space(#[trigger] b[i]),
        text.len() > 0 ==> !white_space(text[0]) && !white_space(text.last()),
    ensures
        text == seq!['o'] ==> r@ == (SelectingView::Ended { deed: DeedView::Open { path: path@ } }),
        text == seq!['d'] ==> r@ == (SelectingView::Confirm { name: name@, path: path@ }),
        text == seq!['p'] ==> r@ == (SelectingView::Ended {
            deed: DeedView::PrintPath { path: path@ },
        }),
        text == seq!['c'] ==> r@ == (SelectingView::Target { path: path@, moving: false }),
        text == seq!['m'] ==> r@ == (SelectingView::Target { path: path@, moving: true }),
        !seq![seq!['o'], seq!['d'], seq!['p'], seq!['c'], seq!['m']].contains(text) ==> r@ == (
        SelectingView::Ended { deed: DeedView::Quit }),
{
    let to = choose|to: Seq<char>|
        stands_for(
            crate::text::trimmed(line@),
            crate::ingest::string_option(home),
            to,
        ) && r@ == #[trigger] selected(
            crate::db::pair_views(results@),
            (Selecting::Choose { name, path })@,
            line@,
            to,
        );
    lemma_trimmed_between(a, text, b);
    law_lines_do_what_they_say(crate::db::pair_views(results@), name@, path@, line@, to, 0);
    let letters = seq![seq!['o'], seq!['d'], seq!['p'], seq!['c'], seq!['m']];
    assert(letters[0] == seq!['o'] && letters[1] == seq!['d'] && letters[2] == seq!['p']
        && letters[3] == seq!['c'] && letters[4] == seq!['m']);
}

/// A file is deleted exactly by a `y`, large or small and alone on its line; any other line leaves it
/// as it is.
pub proof fn law_only_a_yes_deletes(
    results: &Vec<(String, String)>,
    name: String,
    path: String,
    line: &str,
    home: Option<String>,
    r: Selecting,
    a: Seq<char>,
    text: Seq<char>,
    b: Seq<char>,
)
    requires
        call_ensures(select, (results, Selecting::Confirm { name, path }, line, home), r),
        line@ == a + text + b,
        forall|i: int| 0 <= i < a.len() ==> white_space(#[trigger] a[i]),
        forall|i: int| 0 <= i < b.len() ==> white_space(#[trigger] b[i]),
        text.len() > 0 ==> !white_space(text[0]) && !white_space(text.last()),
    ensures
        text == seq!['y'] || text == seq!['Y'] ==> r@ == (SelectingView::Ended {
            deed: DeedView::Delete { path: path@ },
        }),
        text != seq!['y'] && text != seq!['Y'] ==> r@ == (SelectingView::Ended {
            deed: DeedView::Abort,
        }),
{
    let to = choose|to: Seq<char>|
        stands_for(
            crate::text::trimmed(line@),
            crate::ingest::string_option(home),
            to,
        ) && r@ == #[trigger] selected(
            crate::db::pair_views(results@),
            (Selecting::Confirm { name, path })@,
            line@,
            to,
        );
    lemma_trimmed_between(a, text, b);
    law_lines_do_what_they_say(crate::db::pair_views(results@), name@, path@, line@, to, 0);
}

/// A file is copied or moved from where it is to the path on the line: as it is written or, where it
/// begins with a tilde that stands alone or before a slash, below the home directory.
pub proof fn law_files_go_where_the_line_says(
    results: &Vec<(String, String)>,
    path: String,
    moving: bool,
    line: &str,
    home: String,
    r: Selecting,
    a: Seq<char>,
    text: Seq<char>,
    b: Seq<char>,
)
    requires
        call_ensures(select, (results, Selecting::Target { path, moving }, line, Some(home)), r),
        line@ == a + text + b,
        forall|i: int| 0 <= i < a.len() ==> white_space(#[trigger] a[i]),
        forall|i: int| 0 <= i < b.len() ==> white_space(#[trigger] b[i]),
        text.len() > 0 ==> !white_space(text[0]) && !white_space(text.last()),
    ensures
        text.len() == 0 || text[0] != '~' ==> r@ == (SelectingView::Ended {
            deed: if moving {
                DeedView::Move { from: path@, to: text }
            } else {
                DeedView::Copy { from: path@, to: text }
            },
        }),
        text.len() > 0 && text[0] == '~' && (text.len() == 1 || text[1] == '/') ==> r@ == (
        SelectingView::Ended {
            deed: if moving {
                DeedView::Move { from: path@, to: home@ + text.skip(1) }
            } else {
                DeedView::Copy { from: path@, to: home@ + text.skip(1) }
            },
        }),
{
    let to = choose|to: Seq<char>|
        stands_for(
            crate::text::trimmed(line@),
            crate::ingest::string_option(Some(home)),
            to,
        ) && r@ == #[trigger] selected(
            crate::db::pair_views(results@),
            (Selecting::Target { path, moving })@,
            line@,
            to,
        );
    lemma_trimmed_between(a, text, b);
    law_lines_do_what_they_say(crate::db::pair_views(results@), Seq::empty(), path@, line@, to, 0);
    if text.len() > 0 && text[0] == '~' && (text.len() == 1 || text[1] == '/') {
        let rest = text.skip(1);
        assert(seq!['~'] + rest =~= text);
        law_a_tilde_is_the_home_directory(rest, home@, text, to);
    } else {
        law_a_tilde_is_the_home_directory(Seq::empty(), home@, text, to);
    }
}

/// A deletion is asked for by the whole name of the file, and where a file is, was copied or was moved
/// is told in full.
pub proof fn law_the_user_is_told_in_full(
    name: String,
    path: String,
    to: String,
    question: Option<String>,
    printed: Option<String>,
    copied: Option<String>,
    moved: Option<String>,
)
    requires
        call_ensures(ask, (&Selecting::Confirm { name, path },), question),
        call_ensures(report, (&Deed::PrintPath { path },), printed),
        call_ensures(report, (&Deed::Copy { from: path, to },), copied),
        call_ensures(report, (&Deed::Move { from: path, to },), moved),
    ensures
        question is Some && question->0@ == "Delete \""@ + name@ + "\"? [y/N]: "@,
        printed is Some && printed->0@ == "\n📂  "@ + path@,
        copied is Some && copied->0@ == "Copied → "@ + to@,
        moved is Some && moved->0@ == "Moved → "@ + to@,
{
}

/// A file is opened with the editor that is set, or as the operating system opens files; either is
/// given the whole path.
pub proof fn law_files_are_opened_with_their_path(
    editor: Option<String>,
    os: Os,
    path: &str,
    r: Launch,
    max_results: usize,
    limit: usize,
)
    requires
        call_ensures(open_with, (editor, os, path), r),
        call_ensures(select_limit, (max_results,), limit),
    ensures
        editor is Some ==> r.program@ == editor->0@,
        editor is None ==> r.program@ == (match os {
            Os::MacOs => "open"@,
            Os::Windows => "cmd"@,
            Os::Other => "xdg-open"@,
        }),
        r.arguments@.len() > 0 && r.arguments@.last()@ == path@,
        r.arguments@.len() == (if editor is None && os == Os::Windows {
            4nat
        } else {
            1nat
        }),
        limit <= max_results && limit <= 10,
        limit == max_results || limit == 10,
{
    assert(texts(r.arguments@).len() == r.arguments@.len());
    assert(texts(r.arguments@).last() == r.arguments@.last()@);
}

/// The path that a line stands for is what is on it without the whitespace around it, unless it begins
/// with a tilde.
pub proof fn law_paths_stand_for_themselves(
    line: &str,
    home: Option<String>,
    r: String,
    a: Seq<char>,
    text: Seq<char>,
    b: Seq<char>,
)
    requires
        call_ensures(destination, (line, home), r),
        line@ == a + text + b,
        forall|i: int| 0 <= i < a.len() ==> white_space(#[trigger] a[i]),
        forall|i: int| 0 <= i < b.len() ==> white_space(#[trigger] b[i]),
        text.len() > 0 ==> !white_space(text[0]) && !white_space(text.last()) && text[0] != '~',
    ensures
        r@ == text,
{
    lemma_trimmed_between(a, text, b);
}

// ----------------------------------------------------------------------------------------------
// The window
// ----------------------------------------------------------------------------------------------

/// The hotkey and the left button show a hidden window and hide a visible one; one item of the menu
/// shows it, one ends the program, and nothing else does. Closing hides it.
pub proof fn law_the_window_reacts(
    visible: bool,
    item: String,
    hotkey: WindowAction,
    left: WindowAction,
    right: WindowAction,
    menu: WindowAction,
    close: WindowAction,
    arguments: Vec<String>,
    url: String,
)
    requires
        call_ensures(react, (&DesktopEvent::Hotkey { visible },), hotkey),
        call_ensures(react, (&DesktopEvent::TrayClick { left: true, visible },), left),
        call_ensures(react, (&DesktopEvent::TrayClick { left: false, visible },), right),
        call_ensures(react, (&DesktopEvent::Menu { item },), menu),
        call_ensures(react, (&DesktopEvent::CloseRequested,), close),
        call_ensures(server_arguments, (), arguments),
        call_ensures(window_url, (), url),
    ensures
        hotkey == left,
        visible ==> hotkey == WindowAction::Hide,
        !visible ==> hotkey == WindowAction::Show,
        right == WindowAction::Nothing,
        menu == WindowAction::Show <==> item@ == "show"@,
        menu == WindowAction::Quit <==> item@ == "quit"@,
        menu != WindowAction::Hide,
        close == WindowAction::Hide,
        texts(arguments@) == seq!["serve"@, "--port"@, numeral(3031)],
        url@ == "http://localhost:"@ + numeral(3031),
{
    law_events_do_one_thing(visible, item);
}

// ----------------------------------------------------------------------------------------------
// Images and recordings
// ----------------------------------------------------------------------------------------------

/// What the programs wrote is the text, whole and as it is, unless all of its characters are
/// whitespace; and what could not be read is no text.
pub proof fn law_what_was_written_is_the_text(
    named: bool,
    t: String,
    image: Ocr,
    recording: Transcription,
    no_image: Ocr,
    no_recording: Transcription,
)
    requires
        call_ensures(extract_image_text, (Ocr::Read, Outcome::Text(t)), image),
        call_ensures(transcribe, (Transcription::Read, named, Outcome::Text(t)), recording),
        call_ensures(extract_image_text, (Ocr::Read, Outcome::Failed), no_image),
        call_ensures(transcribe, (Transcription::Read, named, Outcome::Failed), no_recording),
    ensures
        image@ is CleanUp,
        recording@ is CleanUp,
        (exists|i: int| 0 <= i < t@.len() && !white_space(#[trigger] t@[i])) ==> image@->CleanUp_text
            == Some(t@) && recording@->CleanUp_text == Some(t@),
        (forall|i: int| 0 <= i < t@.len() ==> white_space(#[trigger] t@[i])) ==> image@->CleanUp_text
            is None && recording@->CleanUp_text is None,
        no_image@ is CleanUp && no_image@->CleanUp_text is None,
        no_recording@ is CleanUp && no_recording@->CleanUp_text is None,
{
}

/// The programs are looked for in their order, and the output of a run is kept in a directory that
/// names the process and the thread, under the whole name of the recording.
pub proof fn law_runs_have_their_place(
    tried: usize,
    program: Option<&'static str>,
    pid: u32,
    thread: &str,
    dir: String,
    stem: &str,
    file: String,
)
    requires
        call_ensures(candidate, (tried,), program),
        call_ensures(output_dir, (pid, thread), dir),
        call_ensures(output_file, (stem,), file),
    ensures
        tried < 3 ==> program is Some && program->0@ == seq![
            "whisper"@,
            "whisper-cpp"@,
            "main"@,
        ][tried as int],
        tried >= 3 ==> program is None,
        dir@ == "omitfs_whisper_"@ + numeral(pid as nat) + "_"@ + thread@.map_values(
            |c: char|
                if c == '(' || c == ')' || c == ' ' {
                    '_'
                } else {
                    c
                },
        ),
        file@ == stem@ + ".txt"@,
{
    law_directories_name_process_and_thread(pid as nat, thread@);
    let programs = seq!["whisper"@, "whisper-cpp"@, "main"@];
    assert(programs[0] == "whisper"@ && programs[1] == "whisper-cpp"@ && programs[2] == "main"@);
}

// ----------------------------------------------------------------------------------------------
// The embedding model
// ----------------------------------------------------------------------------------------------

/// The model is given the first tokens of a text, in order and up to five hundred and twelve, and
/// nothing of an empty text or without tokens.
pub proof fn law_the_first_tokens_are_given(text: &str, ids: Vec<u32>, r: Option<Vec<u32>>)
    requires
        call_ensures(prepare_tokens, (text, ids), r),
    ensures
        r is Some <==> text@.len() > 0 && ids@.len() > 0,
        r is Some ==> r->0@.is_prefix_of(ids@),
        r is Some && ids@.len() <= 512 ==> r->0@.len() == ids@.len(),
        r is Some && ids@.len() > 512 ==> r->0@.len() == 512,
{
    if r is Some {
        assert(r->0@ =~= ids@.subrange(0, r->0@.len() as int));
    }
}

/// The model is loaded from beside the data where it is there and from its repository otherwise, and
/// runs on the best device that is there.
pub proof fn law_the_model_is_loaded_and_runs(
    local: bool,
    source: ModelSource,
    cuda: bool,
    metal: bool,
    device: DeviceKind,
)
    requires
        call_ensures(model_source, (local,), source),
        call_ensures(best_device, (cuda, metal), device),
    ensures
        local ==> source is Local && source->Local_0@ == "model"@,
        !local ==> source is Hub && source->Hub_0@ == "sentence-transformers/all-MiniLM-L6-v2"@,
        device == DeviceKind::Cuda <==> cuda,
        device == DeviceKind::Metal <==> metal && !cuda,
        device == DeviceKind::Cpu <==> !metal && !cuda,
{
}

/// A query that was searched for holds the files that were found, each as it is and in order, in place
/// of those of an earlier query; any other step of a lookup leaves them as they were.
pub proof fn law_queries_hold_what_was_found(
    fs: &mut OmitFs,
    now: Lookup,
    outcome: QueryOutcome,
    r: Lookup,
    found: Vec<FoundFile>,
    i: int,
)
    requires
        outcome is Found ==> outcome->Found_0@.len() <= 0x7fff_ffff_ffff_fffd,
        call_ensures(OmitFs::proceed, (fs, now, outcome), r),
    ensures
        now == Lookup::Search && outcome == QueryOutcome::Found(found) ==> {
            &&& r is Found && r->Found_0.ino == 2 && r->Found_0.kind == NodeKind::Directory
            &&& final(fs).files().len() == found@.len()
            &&& 0 <= i < found@.len() ==> final(fs).files()[i].name == found@[i].name@ && final(fs).files()[i].path == found@[i].path@ && final(fs).files()[i].size == found@[i].size
                && final(fs).files()[i].mtime == found@[i].mtime
        },
        !(now == Lookup::Search && outcome is Found) ==> final(fs).files() == old(fs).files(),
        now == Lookup::Embed && outcome is Embedded ==> r == Lookup::Search,
        now == Lookup::Embed && !(outcome is Embedded) ==> r == Lookup::Failed(FsError::Io),
        now == Lookup::Search && !(outcome is Found) ==> r == Lookup::Failed(FsError::Io),
        now is Found || now is Failed ==> r == now,
{
}

/// A line that is the number of a result picks that result, with its name and its path, and a line that
/// is any other number ends the selection.
pub proof fn law_results_are_picked_by_their_number(
    results: &Vec<(String, String)>,
    line: &str,
    home: Option<String>,
    r: Selecting,
    a: Seq<char>,
    n: nat,
    b: Seq<char>,
)
    requires
        call_ensures(select, (results, Selecting::Pick, line, home), r),
        line@ == a + numeral(n) + b,
        forall|i: int| 0 <= i < a.len() ==> white_space(#[trigger] a[i]),
        forall|i: int| 0 <= i < b.len() ==> white_space(#[trigger] b[i]),
    ensures
        1 <= n <= results@.len() ==> r@ == (SelectingView::Choose {
            name: results@[n - 1].0@,
            path: results@[n - 1].1@,
        }),
        n == 0 || n > results@.len() ==> r@ == (SelectingView::Ended { deed: DeedView::Quit }),
{
    let seen = crate::db::pair_views(results@);
    let to = choose|to: Seq<char>|
        stands_for(
            crate::text::trimmed(line@),
            crate::ingest::string_option(home),
            to,
        ) && r@ == #[trigger] selected(seen, Selecting::Pick@, line@, to);
    assert(seen.len() == results@.len());
    law_numbers_pick_their_result(a, n, b, seen.len());
    if 1 <= n <= seen.len() {
        law_lines_do_what_they_say(seen, Seq::empty(), Seq::empty(), line@, to, (n - 1) as nat);
        assert(seen[n - 1] == (results@[n - 1].0@, results@[n - 1].1@));
    } else {
        law_lines_do_what_they_say(seen, Seq::empty(), Seq::empty(), line@, to, 0);
    }
}

/// A file system starts without any files.
pub proof fn law_file_systems_start_empty(fs: OmitFs)
    requires
        call_ensures(OmitFs::new, (), fs),
    ensures
        fs.files().len() == 0,
{
}

/// An image is read step by step: the program is looked for, earlier output is removed, the program
/// runs, and its output is read and then removed; without the program, or where it fails, there is no
/// text.
pub proof fn law_images_are_read_step_by_step(
    done: Outcome,
    any: Outcome,
    text: Option<String>,
    probed: Ocr,
    unprobed: Ocr,
    cleared: Ocr,
    ran: Ocr,
    unrun: Ocr,
    ended: Ocr,
)
    requires
        done !is Failed,
        call_ensures(extract_image_text, (Ocr::Probe, done), probed),
        call_ensures(extract_image_text, (Ocr::Probe, Outcome::Failed), unprobed),
        call_ensures(extract_image_text, (Ocr::ClearStale, any), cleared),
        call_ensures(extract_image_text, (Ocr::Run, done), ran),
        call_ensures(extract_image_text, (Ocr::Run, Outcome::Failed), unrun),
        call_ensures(extract_image_text, (Ocr::CleanUp { text }, any), ended),
    ensures
        probed@ is ClearStale,
        unprobed@ is Done && unprobed@->Done_text is None,
        cleared@ is Run,
        ran@ is Read,
        unrun@ is Done && unrun@->Done_text is None,
        ended@ is Done,
        text is Some ==> ended@->Done_text == Some(text->0@),
        text is None ==> ended@->Done_text is None,
{
}

/// A recording is transcribed step by step: the programs are looked for one after the other, the
/// directory is made, the first program that was found runs, its output is read, and the directory is
/// removed, also where the program failed.
pub proof fn law_recordings_are_transcribed_step_by_step(
    named: bool,
    done: Outcome,
    any: Outcome,
    tried: usize,
    text: Option<String>,
    missing: Transcription,
    found: Transcription,
    nameless: Transcription,
    made: Transcription,
    unmade: Transcription,
    ran: Transcription,
    unrun: Transcription,
    ended: Transcription,
)
    requires
        done !is Failed,
        call_ensures(
            transcribe,
            (Transcription::Probe { tried }, named, Outcome::Failed),
            missing,
        ),
        call_ensures(transcribe, (Transcription::Probe { tried }, true, done), found),
        call_ensures(transcribe, (Transcription::Probe { tried }, false, done), nameless),
        call_ensures(transcribe, (Transcription::MakeDir { program: tried }, named, done), made),
        call_ensures(
            transcribe,
            (Transcription::MakeDir { program: tried }, named, Outcome::Failed),
            unmade,
        ),
        call_ensures(transcribe, (Transcription::Run { program: tried }, named, done), ran),
        call_ensures(
            transcribe,
            (Transcription::Run { program: tried }, named, Outcome::Failed),
            unrun,
        ),
        call_ensures(transcribe, (Transcription::CleanUp { text }, named, any), ended),
    ensures
        tried < 2 ==> missing@ is Probe && missing@->tried == tried + 1,
        tried >= 2 ==> missing@ is Done && missing@->Done_text is None,
        found@ is MakeDir && found@->MakeDir_program == tried,
        nameless@ is Done && nameless@->Done_text is None,
        made@ is Run && made@->Run_program == tried,
        unmade@ is Done && unmade@->Done_text is None,
        ran@ is Read,
        unrun@ is CleanUp && unrun@->CleanUp_text is None,
        ended@ is Done,
        text is Some ==> ended@->Done_text == Some(text->0@),
        text is None ==> ended@->Done_text is None,
{
}

} // verus!
