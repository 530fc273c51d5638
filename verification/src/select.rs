//! The interactive file manager: picking one of the files that were found, and what to do with it.
use vstd::prelude::*;

use crate::db::pair_views;
use crate::ingest::string_option;
use crate::text::{
    concat2, concat3, decimal, is_digit, law_numbers_are_read_in_decimal, law_numerals_read_back,
    law_trimming_takes_the_whitespace_around, lemma_numeral, numeral, parse_usize, parsed_number,
    str_eq, texts, trim, trimmed, white_space,
};

verus! {

/// How many files are looked for at most.
pub const SELECT_RESULTS: usize = 10;

/// How many files are looked for: as many as are listed, and no more than any search may have.
pub fn select_limit(max_results: usize) -> (r: usize)
    ensures
        r == if max_results < SELECT_RESULTS {
            max_results
        } else {
            SELECT_RESULTS
        },
        max_results <= 10 ==> r == max_results,
        max_results > 10 ==> r == 10,
{
    if max_results < SELECT_RESULTS {
        max_results
    } else {
        SELECT_RESULTS
    }
}

/// A result as it is listed, under its number.
pub open spec fn listed(number: nat, name: Seq<char>, path: Seq<char>) -> Seq<char> {
    "  ["@ + numeral(number) + "]  "@ + name + "  →  "@ + path
}

/// Lists the results, numbered from one.
pub fn listing(results: &Vec<(String, String)>) -> (r: Vec<String>)
    ensures
        r@.len() == results@.len(),
        forall|i: int|
            0 <= i < r@.len() ==> (#[trigger] r@[i])@ == listed(
                (i + 1) as nat,
                results@[i].0@,
                results@[i].1@,
            ),
{
    let n: usize = results.len();
    let mut out: Vec<String> = Vec::new();
    let mut i: usize = 0;
    while i < n
        invariant
            i <= n,
            n == results@.len(),
            out@.len() == i,
            forall|k: int|
                0 <= k < i ==> (#[trigger] out@[k])@ == listed(
                    (k + 1) as nat,
                    results@[k].0@,
                    results@[k].1@,
                ),
        decreases n - i,
    {
        let mut line: String = concat3("  [", decimal(i as u64 + 1).as_str(), "]  ");
        line.append(results[i].0.as_str());
        line.append("  →  ");
        line.append(results[i].1.as_str());
        out.push(line);
        i = i + 1;
    }
    out
}

/// Which of the results a line of input picks, counted from zero: the one of that number. Anything
/// else picks none.
pub open spec fn picked(line: Seq<char>, count: nat) -> Option<nat> {
    match parsed_number(trimmed(line)) {
        Some(n) => if 1 <= n <= count {
            Some((n - 1) as nat)
        } else {
            None
        },
        None => None,
    }
}

/// Reads which of the results a line of input picks.
pub fn pick(line: &str, count: usize) -> (r: Option<usize>)
    ensures
        match r {
            Some(i) => i < count && picked(line@, count as nat) == Some(i as nat),
            None => picked(line@, count as nat) is None,
        },
{
    match parse_usize(trim(line).as_str()) {
        Some(n) => if n == 0 || n > count {
            None
        } else {
            Some(n - 1)
        },
        None => None,
    }
}

/// What is done with a file that was picked.
#[derive(Debug)]
pub enum Deed {
    /// Nothing, and nothing was to be done.
    Quit,
    /// Nothing, because it was not confirmed.
    Abort,
    Open { path: String },
    Delete { path: String },
    PrintPath { path: String },
    Copy { from: String, to: String },
    Move { from: String, to: String },
}

/// The view of what is done with a file.
pub enum DeedView {
    Quit,
    Abort,
    Open { path: Seq<char> },
    Delete { path: Seq<char> },
    PrintPath { path: Seq<char> },
    Copy { from: Seq<char>, to: Seq<char> },
    Move { from: Seq<char>, to: Seq<char> },
}

impl View for Deed {
    type V = DeedView;

    open spec fn view(&self) -> DeedView {
        match self {
            Deed::Quit => DeedView::Quit,
            Deed::Abort => DeedView::Abort,
            Deed::Open { path } => DeedView::Open { path: path@ },
            Deed::Delete { path } => DeedView::Delete { path: path@ },
            Deed::PrintPath { path } => DeedView::PrintPath { path: path@ },
            Deed::Copy { from, to } => DeedView::Copy { from: from@, to: to@ },
            Deed::Move { from, to } => DeedView::Move { from: from@, to: to@ },
        }
    }
}

/// What a selection waits for.
#[derive(Debug)]
pub enum Selecting {
    /// The number of a result.
    Pick,
    /// The letter of what to do with the file.
    Choose { name: String, path: String },
    /// The confirmation that the file is to be deleted.
    Confirm { name: String, path: String },
    /// The path to copy or to move the file to.
    Target { path: String, moving: bool },
    /// Nothing more: this is to be done.
    Ended { deed: Deed },
}

/// The view of what a selection waits for.
pub enum SelectingView {
    Pick,
    Choose { name: Seq<char>, path: Seq<char> },
    Confirm { name: Seq<char>, path: Seq<char> },
    Target { path: Seq<char>, moving: bool },
    Ended { deed: DeedView },
}

impl View for Selecting {
    type V = SelectingView;

    open spec fn view(&self) -> SelectingView {
        match self {
            Selecting::Pick => SelectingView::Pick,
            Selecting::Choose { name, path } => SelectingView::Choose { name: name@, path: path@ },
            Selecting::Confirm { name, path } => SelectingView::Confirm {
                name: name@,
                path: path@,
            },
            Selecting::Target { path, moving } => SelectingView::Target {
                path: path@,
                moving: *moving,
            },
            Selecting::Ended { deed } => SelectingView::Ended { deed: deed@ },
        }
    }
}

/// What a letter asks for to be done with a file.
pub open spec fn chosen(name: Seq<char>, path: Seq<char>, letter: Seq<char>) -> SelectingView {
    if letter == "o"@ {
        SelectingView::Ended { deed: DeedView::Open { path } }
    } else if letter == "d"@ {
        SelectingView::Confirm { name, path }
    } else if letter == "p"@ {
        SelectingView::Ended { deed: DeedView::PrintPath { path } }
    } else if letter == "c"@ {
        SelectingView::Target { path, moving: false }
    } else if letter == "m"@ {
        SelectingView::Target { path, moving: true }
    } else {
        SelectingView::Ended { deed: DeedView::Quit }
    }
}

/// Whether a line of input confirms a deletion: by a `y`, large or small.
pub open spec fn confirmed(line: Seq<char>) -> bool {
    trimmed(line) == "y"@ || trimmed(line) == "Y"@
}

/// What is done with a file that is copied or moved to a path.
pub open spec fn transferred(path: Seq<char>, moving: bool, to: Seq<char>) -> DeedView {
    if moving {
        DeedView::Move { from: path, to }
    } else {
        DeedView::Copy { from: path, to }
    }
}

/// What a selection among the results comes to by a line of input, where `to` is the path that the
/// line stands for when a path is waited for.
pub open spec fn selected(
    results: Seq<(Seq<char>, Seq<char>)>,
    now: SelectingView,
    line: Seq<char>,
    to: Seq<char>,
) -> SelectingView {
    match now {
        SelectingView::Pick => match picked(line, results.len()) {
            Some(i) => SelectingView::Choose {
                name: results[i as int].0,
                path: results[i as int].1,
            },
            None => SelectingView::Ended { deed: DeedView::Quit },
        },
        SelectingView::Choose { name, path } => chosen(name, path, trimmed(line)),
        SelectingView::Confirm { path, .. } => SelectingView::Ended {
            deed: if confirmed(line) {
                DeedView::Delete { path }
            } else {
                DeedView::Abort
            },
        },
        SelectingView::Target { path, moving } => SelectingView::Ended {
            deed: transferred(path, moving, to),
        },
        SelectingView::Ended { deed } => SelectingView::Ended { deed },
    }
}

/// Whether a path is the home directory or a path below it, written with a tilde.
pub open spec fn below_home(path: Seq<char>) -> bool {
    path.len() > 0 && path[0] == '~' && (path.len() == 1 || path[1] == '/')
}

/// Whether a path is written like one below the home directory on Windows, with a tilde and a
/// backslash.
pub open spec fn below_home_on_windows(path: Seq<char>) -> bool {
    path.len() > 1 && path[0] == '~' && path[1] == '\\'
}

/// A path with the home directory in place of its tilde; as it is where there is no home directory.
pub open spec fn at_home(path: Seq<char>, home: Option<Seq<char>>) -> Seq<char> {
    match home {
        Some(h) => h + path.skip(1),
        None => path,
    }
}

/// Whether a path stands for another, with this home directory. With a tilde and a backslash it
/// depends on the operating system.
pub open spec fn stands_for(path: Seq<char>, home: Option<Seq<char>>, to: Seq<char>) -> bool {
    if below_home(path) {
        to == at_home(path, home)
    } else if below_home_on_windows(path) {
        to == path || to == at_home(path, home)
    } else {
        to == path
    }
}

/// Calls `shellexpand::tilde_with_context` with the given home directory. A leading tilde that
/// stands alone or before a slash is replaced by the home directory, where there is one. A tilde
/// before a backslash is replaced on Windows only. Any other path stays as it is.
#[verifier::external_body]
fn expand_home(path: &str, home: Option<String>) -> (r: String)
    ensures
        stands_for(path@, string_option(home), r@),
{
    shellexpand::tilde_with_context(path, move || home).into_owned()
}

/// Reads the path that a line of input stands for, with this home directory.
pub fn destination(line: &str, home: Option<String>) -> (r: String)
    ensures
        stands_for(trimmed(line@), string_option(home), r@),
{
    let path: String = trim(line);
    expand_home(path.as_str(), home)
}

fn choose_deed(name: String, path: String, line: &str) -> (r: Selecting)
    ensures
        r@ == chosen(name@, path@, trimmed(line@)),
{
    let text: String = trim(line);
    let letter: &str = text.as_str();
    if str_eq(letter, "o") {
        Selecting::Ended { deed: Deed::Open { path } }
    } else if str_eq(letter, "d") {
        Selecting::Confirm { name, path }
    } else if str_eq(letter, "p") {
        Selecting::Ended { deed: Deed::PrintPath { path } }
    } else if str_eq(letter, "c") {
        Selecting::Target { path, moving: false }
    } else if str_eq(letter, "m") {
        Selecting::Target { path, moving: true }
    } else {
        Selecting::Ended { deed: Deed::Quit }
    }
}

/// Decides what is done with a file that is copied or moved to a path.
pub fn transfer(path: String, moving: bool, to: String) -> (r: Deed)
    ensures
        r@ == transferred(path@, moving, to@),
{
    if moving {
        Deed::Move { from: path, to }
    } else {
        Deed::Copy { from: path, to }
    }
}

/// Decides what a selection among the results comes to by a line of input, with this home
/// directory.
pub fn select(
    results: &Vec<(String, String)>,
    now: Selecting,
    line: &str,
    home: Option<String>,
) -> (r: Selecting)
    ensures
        exists|to: Seq<char>|
            stands_for(trimmed(line@), string_option(home), to) && r@ == #[trigger] selected(
                pair_views(results@),
                now@,
                line@,
                to,
            ),
{
    let to: String = destination(line, home);
    let next: Selecting = match now {
        Selecting::Pick => match pick(line, results.len()) {
            Some(i) => Selecting::Choose {
                name: results[i].0.clone(),
                path: results[i].1.clone(),
            },
            None => Selecting::Ended { deed: Deed::Quit },
        },
        Selecting::Choose { name, path } => choose_deed(name, path, line),
        Selecting::Confirm { path, .. } => {
            let text: String = trim(line);
            if str_eq(text.as_str(), "y") || str_eq(text.as_str(), "Y") {
                Selecting::Ended { deed: Deed::Delete { path } }
            } else {
                Selecting::Ended { deed: Deed::Abort }
            }
        },
        Selecting::Target { path, moving } => Selecting::Ended {
            deed: transfer(path, moving, to.clone()),
        },
        Selecting::Ended { deed } => Selecting::Ended { deed },
    };
    assert(next@ == selected(pair_views(results@), now@, line@, to@));
    next
}

/// The question that a selection asks.
pub open spec fn question(now: SelectingView) -> Option<Seq<char>> {
    match now {
        SelectingView::Pick => Some("\nSelect number (0 to quit): "@),
        SelectingView::Choose { .. } => Some("Choice: "@),
        SelectingView::Confirm { name, .. } => Some("Delete \""@ + name + "\"? [y/N]: "@),
        SelectingView::Target { .. } => Some("Destination path: "@),
        SelectingView::Ended { .. } => None,
    }
}

/// Writes the question that a selection asks; none when it ended.
pub fn ask(now: &Selecting) -> (r: Option<String>)
    ensures
        string_option(r) == question(now@),
{
    match now {
        Selecting::Pick => Some("\nSelect number (0 to quit): ".to_owned()),
        Selecting::Choose { .. } => Some("Choice: ".to_owned()),
        Selecting::Confirm { name, .. } => Some(
            concat3("Delete \"", name.as_str(), "\"? [y/N]: "),
        ),
        Selecting::Target { .. } => Some("Destination path: ".to_owned()),
        Selecting::Ended { .. } => None,
    }
}

/// What is said when it was done.
pub open spec fn done_message(deed: DeedView) -> Option<Seq<char>> {
    match deed {
        DeedView::Quit => Some("Quit."@),
        DeedView::Abort => Some("Aborted."@),
        DeedView::Open { .. } => None,
        DeedView::Delete { .. } => Some("Deleted."@),
        DeedView::PrintPath { path } => Some("\n📂  "@ + path),
        DeedView::Copy { to, .. } => Some("Copied → "@ + to),
        DeedView::Move { to, .. } => Some("Moved → "@ + to),
    }
}

/// Writes what is said when it was done; nothing when a file was opened.
pub fn report(deed: &Deed) -> (r: Option<String>)
    ensures
        string_option(r) == done_message(deed@),
{
    match deed {
        Deed::Quit => Some("Quit.".to_owned()),
        Deed::Abort => Some("Aborted.".to_owned()),
        Deed::Open { .. } => None,
        Deed::Delete { .. } => Some("Deleted.".to_owned()),
        Deed::PrintPath { path } => Some(concat2("\n📂  ", path.as_str())),
        Deed::Copy { to, .. } => Some(concat2("Copied → ", to.as_str())),
        Deed::Move { to, .. } => Some(concat2("Moved → ", to.as_str())),
    }
}

/// The operating systems that open files differently.
#[derive(Clone, Copy, PartialEq, Eq, Structural, Debug)]
pub enum Os {
    MacOs,
    Windows,
    Other,
}

/// A program and what it is given.
#[derive(Debug)]
pub struct Launch {
    pub program: String,
    pub arguments: Vec<String>,
}

/// What a file is opened with where no editor is set.
pub open spec fn opener(os: Os) -> Seq<char> {
    match os {
        Os::MacOs => "open"@,
        Os::Windows => "cmd"@,
        Os::Other => "xdg-open"@,
    }
}

/// Decides how a file is opened: with the editor that is set or, where none is, as the operating
/// system opens files.
pub fn open_with(editor: Option<String>, os: Os, path: &str) -> (r: Launch)
    ensures
        editor matches Some(e) ==> r.program@ == e@,
        editor is None ==> r.program@ == opener(os),
        editor is None && os == Os::MacOs ==> r.program@ == "open"@,
        editor is None && os == Os::Windows ==> r.program@ == "cmd"@,
        editor is None && os == Os::Other ==> r.program@ == "xdg-open"@,
        editor is None && os == Os::Windows ==> texts(r.arguments@) == seq![
            "/C"@,
            "start"@,
            ""@,
            path@,
        ],
        editor is Some || os != Os::Windows ==> texts(r.arguments@) == seq![path@],
{
    let mut arguments: Vec<String> = Vec::new();
    match editor {
        Some(program) => {
            arguments.push(path.to_owned());
            assert(texts(arguments@) =~= seq![path@]);
            Launch { program, arguments }
        },
        None => match os {
            Os::Windows => {
                arguments.push("/C".to_owned());
                arguments.push("start".to_owned());
                arguments.push("".to_owned());
                arguments.push(path.to_owned());
                assert(texts(arguments@) =~= seq!["/C"@, "start"@, ""@, path@]);
                Launch { program: "cmd".to_owned(), arguments }
            },
            Os::MacOs => {
                arguments.push(path.to_owned());
                assert(texts(arguments@) =~= seq![path@]);
                Launch { program: "open".to_owned(), arguments }
            },
            Os::Other => {
                arguments.push(path.to_owned());
                assert(texts(arguments@) =~= seq![path@]);
                Launch { program: "xdg-open".to_owned(), arguments }
            },
        },
    }
}

/// A file is only ever deleted after it was asked for, and on the line that confirms it.
pub proof fn law_deletion_is_confirmed(
    results: Seq<(Seq<char>, Seq<char>)>,
    now: SelectingView,
    line: Seq<char>,
    to: Seq<char>,
    path: Seq<char>,
)
    requires
        now !is Ended,
        selected(results, now, line, to) == (SelectingView::Ended {
            deed: DeedView::Delete { path },
        }),
    ensures
        now matches SelectingView::Confirm { path: p, .. } && p == path,
        confirmed(line),
{
}

/// The file that a selection is about.
pub open spec fn subject(now: SelectingView) -> Option<Seq<char>> {
    match now {
        SelectingView::Pick => None,
        SelectingView::Choose { path, .. } => Some(path),
        SelectingView::Confirm { path, .. } => Some(path),
        SelectingView::Target { path, .. } => Some(path),
        SelectingView::Ended { deed } => match deed {
            DeedView::Quit => None,
            DeedView::Abort => None,
            DeedView::Open { path } => Some(path),
            DeedView::Delete { path } => Some(path),
            DeedView::PrintPath { path } => Some(path),
            DeedView::Copy { from, .. } => Some(from),
            DeedView::Move { from, .. } => Some(from),
        },
    }
}

/// A selection is about one of the files that were found, and stays with it: once one was picked,
/// nothing is done to any other.
pub proof fn law_selection_stays_with_the_file(
    results: Seq<(Seq<char>, Seq<char>)>,
    now: SelectingView,
    line: Seq<char>,
    to: Seq<char>,
)
    ensures
        match subject(selected(results, now, line, to)) {
            Some(path) => if now is Pick {
                exists|i: int| 0 <= i < results.len() && (#[trigger] results[i]).1 == path
            } else {
                subject(now) == Some(path)
            },
            None => true,
        },
{
    if now is Pick && picked(line, results.len()) is Some {
        let i = picked(line, results.len())->0 as int;
        assert(results[i].1 == results[i].1);
    }
}

/// How many lines of input a selection waits for at most.
pub open spec fn lines_left(now: SelectingView) -> nat {
    match now {
        SelectingView::Pick => 3,
        SelectingView::Choose { .. } => 2,
        SelectingView::Confirm { .. } => 1,
        SelectingView::Target { .. } => 1,
        SelectingView::Ended { .. } => 0,
    }
}

/// Every line of input brings a selection nearer to its end, and at the end nothing changes any
/// more.
pub proof fn law_selection_ends(
    results: Seq<(Seq<char>, Seq<char>)>,
    now: SelectingView,
    line: Seq<char>,
    to: Seq<char>,
)
    ensures
        now !is Ended ==> lines_left(selected(results, now, line, to)) < lines_left(now),
        now is Ended ==> selected(results, now, line, to) == now,
{
}

pub proof fn lemma_trimmed_between(a: Seq<char>, t: Seq<char>, b: Seq<char>)
    requires
        forall|i: int| 0 <= i < a.len() ==> white_space(#[trigger] a[i]),
        forall|i: int| 0 <= i < b.len() ==> white_space(#[trigger] b[i]),
        t.len() > 0 ==> !white_space(t[0]) && !white_space(t.last()),
    ensures
        trimmed(a + t + b) == t,
{
    let s = a + t + b;
    let cut = law_trimming_takes_the_whitespace_around(s);
    let from = a.len() as int;
    let to = from + t.len();
    assert forall|i: int| 0 <= i < from implies #[trigger] s[i] == a[i] by {}
    assert forall|i: int| to <= i < s.len() implies #[trigger] s[i] == b[i - to] by {}
    if t.len() > 0 {
        assert(s[from] == t[0]);
        assert(s[to - 1] == t.last());
        if cut.0 < from {
            assert(white_space(s[cut.0]));
            assert(cut.0 == cut.1);
            assert(white_space(s[from]));
        }
        if cut.0 > from {
            assert(white_space(s[from]));
        }
        if cut.1 > to {
            assert(s[cut.1 - 1] == b[cut.1 - 1 - to]);
            assert(white_space(s[cut.1 - 1]));
        }
        if cut.1 < to {
            assert(white_space(s[to - 1]));
        }
        assert(s.subrange(from, to) =~= t);
    } else {
        if cut.0 < cut.1 {
            assert(white_space(s[cut.0])) by {
                if cut.0 < from {
                    assert(s[cut.0] == a[cut.0]);
                } else {
                    assert(s[cut.0] == b[cut.0 - to]);
                }
            }
        }
        assert(trimmed(s) =~= t);
    }
}

/// A line that is a number picks the result of that number, counted from one, whatever whitespace is
/// around it, and none where there is no result of that number.
pub proof fn law_numbers_pick_their_result(a: Seq<char>, n: nat, b: Seq<char>, count: nat)
    requires
        forall|i: int| 0 <= i < a.len() ==> white_space(#[trigger] a[i]),
        forall|i: int| 0 <= i < b.len() ==> white_space(#[trigger] b[i]),
    ensures
        1 <= n <= count ==> picked(a + numeral(n) + b, count) == Some((n - 1) as nat),
        n == 0 || n > count ==> picked(a + numeral(n) + b, count) is None,
{
    lemma_numeral(n);
    let t = numeral(n);
    assert(is_digit(t[0]));
    assert(is_digit(t[t.len() - 1]));
    lemma_trimmed_between(a, t, b);
    law_numerals_read_back(n);
}

/// A line that is no number picks nothing: neither an empty one nor one that has, whitespace around
/// it and a plus sign in front aside, anything but digits.
pub proof fn law_other_lines_pick_nothing(line: Seq<char>, count: nat, i: int)
    ensures
        (forall|k: int| 0 <= k < line.len() ==> white_space(#[trigger] line[k])) ==> picked(
            line,
            count,
        ) is None,
        0 < i < trimmed(line).len() && !('0' <= trimmed(line)[i] && trimmed(line)[i] <= '9')
            ==> picked(line, count) is None,
        trimmed(line).len() > 0 && trimmed(line)[0] != '+' && !('0' <= trimmed(line)[0] && trimmed(
            line,
        )[0] <= '9') ==> picked(line, count) is None,
{
    let t = trimmed(line);
    law_numbers_are_read_in_decimal(t, '0', 0);
    if forall|k: int| 0 <= k < line.len() ==> white_space(#[trigger] line[k]) {
        let cut = law_trimming_takes_the_whitespace_around(line);
        assert(t =~= Seq::<char>::empty());
    }
}

/// One result is picked by its number; the letters `o`, `d`, `p`, `c` and `m`, small and alone on
/// their line, open, delete, print, copy and move it, and anything else ends the selection; it is
/// deleted exactly by a `y`, large or small, and copied or moved to the path that was given.
pub proof fn law_lines_do_what_they_say(
    results: Seq<(Seq<char>, Seq<char>)>,
    name: Seq<char>,
    path: Seq<char>,
    line: Seq<char>,
    to: Seq<char>,
    i: nat,
)
    ensures
        picked(line, results.len()) == Some(i) ==> i < results.len() && selected(
            results,
            SelectingView::Pick,
            line,
            to,
        ) == (SelectingView::Choose { name: results[i as int].0, path: results[i as int].1 }),
        picked(line, results.len()) is None ==> selected(results, SelectingView::Pick, line, to) == (
        SelectingView::Ended { deed: DeedView::Quit }),
        ({
            let next = selected(results, SelectingView::Choose { name, path }, line, to);
            &&& trimmed(line) == seq!['o'] ==> next == (SelectingView::Ended {
                deed: DeedView::Open { path },
            })
            &&& trimmed(line) == seq!['d'] ==> next == (SelectingView::Confirm { name, path })
            &&& trimmed(line) == seq!['p'] ==> next == (SelectingView::Ended {
                deed: DeedView::PrintPath { path },
            })
            &&& trimmed(line) == seq!['c'] ==> next == (SelectingView::Target {
                path,
                moving: false,
            })
            &&& trimmed(line) == seq!['m'] ==> next == (SelectingView::Target {
                path,
                moving: true,
            })
            &&& trimmed(line) != seq!['o'] && trimmed(line) != seq!['d'] && trimmed(line)
                != seq!['p'] && trimmed(line) != seq!['c'] && trimmed(line) != seq!['m'] ==> next
                == (SelectingView::Ended { deed: DeedView::Quit })
        }),
        selected(results, SelectingView::Confirm { name, path }, line, to) == (if trimmed(line)
            == seq!['y'] || trimmed(line) == seq!['Y'] {
            SelectingView::Ended { deed: DeedView::Delete { path } }
        } else {
            SelectingView::Ended { deed: DeedView::Abort }
        }),
        selected(results, SelectingView::Target { path, moving: false }, line, to) == (
        SelectingView::Ended { deed: DeedView::Copy { from: path, to } }),
        selected(results, SelectingView::Target { path, moving: true }, line, to) == (
        SelectingView::Ended { deed: DeedView::Move { from: path, to } }),
{
    reveal_strlit("o");
    reveal_strlit("d");
    reveal_strlit("p");
    reveal_strlit("c");
    reveal_strlit("m");
    reveal_strlit("y");
    reveal_strlit("Y");
    assert("o"@ =~= seq!['o'] && "d"@ =~= seq!['d'] && "p"@ =~= seq!['p'] && "c"@ =~= seq!['c']
        && "m"@ =~= seq!['m'] && "y"@ =~= seq!['y'] && "Y"@ =~= seq!['Y']);
    assert(seq!['o'][0] == 'o' && seq!['d'][0] == 'd' && seq!['p'][0] == 'p' && seq!['c'][0] == 'c'
        && seq!['m'][0] == 'm');
}

/// A result is listed under its number with its whole name and path; a deletion is asked for by the
/// whole name of the file, and where it is, was copied or was moved is told in full.
pub proof fn law_files_are_named_in_full(
    number: nat,
    name: Seq<char>,
    path: Seq<char>,
    to: Seq<char>,
    moving: bool,
    deed: DeedView,
)
    ensures
        listed(number, name, path) == "  ["@ + numeral(number) + "]  "@ + name + "  →  "@ + path,
        question(SelectingView::Confirm { name, path }) == Some(
            "Delete \""@ + name + "\"? [y/N]: "@,
        ),
        question(SelectingView::Pick) == Some("\nSelect number (0 to quit): "@),
        question(SelectingView::Choose { name, path }) == Some("Choice: "@),
        question(SelectingView::Target { path, moving }) == Some("Destination path: "@),
        question(SelectingView::Ended { deed }) is None,
        done_message(DeedView::PrintPath { path }) == Some("\n📂  "@ + path),
        done_message(DeedView::Copy { from: path, to }) == Some("Copied → "@ + to),
        done_message(DeedView::Move { from: path, to }) == Some("Moved → "@ + to),
        done_message(DeedView::Open { path }) is None,
        done_message(DeedView::Delete { path }) == Some("Deleted."@),
        done_message(DeedView::Abort) == Some("Aborted."@),
        done_message(DeedView::Quit) == Some("Quit."@),
{
}

/// A tilde that stands alone or before a slash stands for the home directory, where there is one,
/// and all that comes behind it is kept; any other path without a backslash behind a tilde stands
/// for itself.
pub proof fn law_a_tilde_is_the_home_directory(
    rest: Seq<char>,
    home: Seq<char>,
    path: Seq<char>,
    to: Seq<char>,
)
    ensures
        rest.len() == 0 || rest[0] == '/' ==> (stands_for(seq!['~'] + rest, Some(home), to) <==> to
            == home + rest),
        rest.len() == 0 || rest[0] == '/' ==> (stands_for(seq!['~'] + rest, None, to) <==> to
            == seq!['~'] + rest),
        path.len() == 0 || path[0] != '~' || (path.len() > 1 && path[1] != '/' && path[1] != '\\')
            ==> (stands_for(path, Some(home), to) <==> to == path),
{
    let tilde = seq!['~'] + rest;
    assert(tilde.skip(1) =~= rest);
    assert(tilde[0] == '~');
    if rest.len() > 0 {
        assert(tilde[1] == rest[0]);
    }
}

} // verus!
