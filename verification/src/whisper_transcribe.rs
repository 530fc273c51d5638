//! Text from audio and video, by one of the Whisper programs.
use vstd::prelude::*;

use crate::ingest::{non_blank, string_option, unless_blank};
use crate::step::Outcome;
use crate::text::{
    blank, concat2, decimal, is_digit, lemma_numeral, numeral, replace_char, replaced, texts,
    white_space,
};

verus! {

/// The programs that are looked for, in this order.
pub open spec fn candidates() -> Seq<Seq<char>> {
    seq!["whisper"@, "whisper-cpp"@, "main"@]
}

/// The program to look for after so many were not there; none when all were looked for.
pub fn candidate(tried: usize) -> (r: Option<&'static str>)
    ensures
        match r {
            Some(s) => tried < candidates().len() && s@ == candidates()[tried as int],
            None => tried >= candidates().len(),
        },
        match r {
            Some(s) => (tried == 0 && s@ == "whisper"@) || (tried == 1 && s@ == "whisper-cpp"@) || (
            tried == 2 && s@ == "main"@),
            None => tried > 2,
        },
{
    if tried == 0 {
        Some("whisper")
    } else if tried == 1 {
        Some("whisper-cpp")
    } else if tried == 2 {
        Some("main")
    } else {
        None
    }
}

/// What a program is given to see whether it is there.
pub fn probe_argument() -> (r: &'static str)
    ensures
        r@ == "--help"@,
{
    "--help"
}

/// The name of a thread with its brackets and blanks replaced.
pub open spec fn thread_part(thread: Seq<char>) -> Seq<char> {
    replaced(replaced(replaced(thread, '(', "_"@), ')', "_"@), ' ', "_"@)
}

/// The name of the directory for the output of one run: it names the process and the thread, so
/// that no two runs at a time share it.
pub open spec fn run_dir(pid: nat, thread: Seq<char>) -> Seq<char> {
    "omitfs_whisper_"@ + numeral(pid) + "_"@ + thread_part(thread)
}

/// Writes the name of the directory for the output of one run.
pub fn output_dir(pid: u32, thread: &str) -> (r: String)
    ensures
        r@ == run_dir(pid as nat, thread@),
{
    let a: String = replace_char(thread, '(', "_");
    let b: String = replace_char(a.as_str(), ')', "_");
    let c: String = replace_char(b.as_str(), ' ', "_");
    let mut out: String = concat2("omitfs_whisper_", decimal(pid as u64).as_str());
    out.append("_");
    out.append(c.as_str());
    out
}

/// The file that the program writes, by the name of its input without the extension.
pub fn output_file(stem: &str) -> (r: String)
    ensures
        r@ == stem@ + ".txt"@,
{
    concat2(stem, ".txt")
}

/// What the program is given after its input, with the directory for its output among it.
pub fn trailing_arguments(dir: &str) -> (r: Vec<String>)
    ensures
        texts(r@) == seq![
            "--output_format"@,
            "txt"@,
            "--output_dir"@,
            dir@,
            "--model"@,
            "base"@,
        ],
{
    let mut out: Vec<String> = Vec::new();
    out.push("--output_format".to_owned());
    out.push("txt".to_owned());
    out.push("--output_dir".to_owned());
    out.push(dir.to_owned());
    out.push("--model".to_owned());
    out.push("base".to_owned());
    assert(texts(out@) =~= seq![
        "--output_format"@,
        "txt"@,
        "--output_dir"@,
        dir@,
        "--model"@,
        "base"@,
    ]);
    out
}

/// The next step in transcribing a recording.
#[derive(Debug)]
pub enum Transcription {
    /// Start a program, to see whether it is there; so many were not.
    Probe { tried: usize },
    /// Make the directory for the output.
    MakeDir { program: usize },
    /// Run the program on the recording.
    Run { program: usize },
    /// Read the output.
    Read,
    /// Remove the directory with all that is in it.
    CleanUp { text: Option<String> },
    /// Nothing more: this is the transcript, where there is any.
    Done { text: Option<String> },
}

/// The view of a step.
pub enum TranscriptionView {
    Probe { tried: nat },
    MakeDir { program: nat },
    Run { program: nat },
    Read,
    CleanUp { text: Option<Seq<char>> },
    Done { text: Option<Seq<char>> },
}

impl View for Transcription {
    type V = TranscriptionView;

    open spec fn view(&self) -> TranscriptionView {
        match self {
            Transcription::Probe { tried } => TranscriptionView::Probe { tried: *tried as nat },
            Transcription::MakeDir { program } => TranscriptionView::MakeDir {
                program: *program as nat,
            },
            Transcription::Run { program } => TranscriptionView::Run { program: *program as nat },
            Transcription::Read => TranscriptionView::Read,
            Transcription::CleanUp { text } => TranscriptionView::CleanUp {
                text: string_option(*text),
            },
            Transcription::Done { text } => TranscriptionView::Done { text: string_option(*text) },
        }
    }
}

/// The step after a step that went like this, for a recording that has a name or not. The first
/// program that is there is used. Without any, without a name, or where the directory cannot be
/// made, there is no transcript. Neither is there where the program fails, and output that cannot
/// be read counts as empty; in both cases the directory is removed.
pub open spec fn transcription_after(
    now: TranscriptionView,
    named: bool,
    outcome: Outcome,
) -> TranscriptionView {
    match now {
        TranscriptionView::Probe { tried } => if outcome is Failed {
            if tried + 1 < candidates().len() {
                TranscriptionView::Probe { tried: tried + 1 }
            } else {
                TranscriptionView::Done { text: None }
            }
        } else if named {
            TranscriptionView::MakeDir { program: tried }
        } else {
            TranscriptionView::Done { text: None }
        },
        TranscriptionView::MakeDir { program } => if outcome is Failed {
            TranscriptionView::Done { text: None }
        } else {
            TranscriptionView::Run { program }
        },
        TranscriptionView::Run { program } => if outcome is Failed {
            TranscriptionView::CleanUp { text: None }
        } else {
            TranscriptionView::Read
        },
        TranscriptionView::Read => TranscriptionView::CleanUp {
            text: match outcome {
                Outcome::Text(t) => unless_blank(t@),
                _ => None,
            },
        },
        TranscriptionView::CleanUp { text } => TranscriptionView::Done { text },
        TranscriptionView::Done { text } => TranscriptionView::Done { text },
    }
}

/// Decides on the next step in transcribing a recording.
pub fn transcribe(now: Transcription, named: bool, outcome: Outcome) -> (r: Transcription)
    ensures
        r@ == transcription_after(now@, named, outcome),
{
    match now {
        Transcription::Probe { tried } => match outcome {
            Outcome::Failed => if tried < 2 {
                Transcription::Probe { tried: tried + 1 }
            } else {
                Transcription::Done { text: None }
            },
            _ => if named {
                Transcription::MakeDir { program: tried }
            } else {
                Transcription::Done { text: None }
            },
        },
        Transcription::MakeDir { program } => match outcome {
            Outcome::Failed => Transcription::Done { text: None },
            _ => Transcription::Run { program },
        },
        Transcription::Run { program } => match outcome {
            Outcome::Failed => Transcription::CleanUp { text: None },
            _ => Transcription::Read,
        },
        Transcription::Read => match outcome {
            Outcome::Text(t) => Transcription::CleanUp { text: non_blank(t) },
            _ => Transcription::CleanUp { text: None },
        },
        Transcription::CleanUp { text } => Transcription::Done { text },
        Transcription::Done { text } => Transcription::Done { text },
    }
}

/// How many steps there are at most before the transcript is known.
pub open spec fn transcription_steps_left(now: TranscriptionView) -> nat {
    match now {
        TranscriptionView::Probe { tried } => if tried < candidates().len() {
            (5 + candidates().len() - tried) as nat
        } else {
            5
        },
        TranscriptionView::MakeDir { .. } => 4,
        TranscriptionView::Run { .. } => 3,
        TranscriptionView::Read => 2,
        TranscriptionView::CleanUp { .. } => 1,
        TranscriptionView::Done { .. } => 0,
    }
}

/// Whether the directory for the output is there at a step.
pub open spec fn directory_is_there(now: TranscriptionView) -> bool {
    now is Run || now is Read || now is CleanUp
}

/// The transcript that was got so far.
pub open spec fn transcript_so_far(now: TranscriptionView) -> Option<Seq<char>> {
    match now {
        TranscriptionView::CleanUp { text } => text,
        TranscriptionView::Done { text } => text,
        _ => None,
    }
}

/// However its steps go, a transcription comes to an end.
pub proof fn law_transcription_ends(now: TranscriptionView, named: bool, outcome: Outcome)
    ensures
        now !is Done ==> transcription_steps_left(transcription_after(now, named, outcome))
            < transcription_steps_left(now),
        now is Done ==> transcription_after(now, named, outcome) == now,
{
}

/// A directory that was made stays until the step that removes it, and a transcription never ends
/// without that step.
pub proof fn law_directory_is_removed(now: TranscriptionView, named: bool, outcome: Outcome)
    ensures
        directory_is_there(now) && now !is CleanUp ==> directory_is_there(
            transcription_after(now, named, outcome),
        ),
        now is CleanUp ==> !directory_is_there(transcription_after(now, named, outcome)),
{
}

/// A transcript is never blank.
pub proof fn law_transcripts_are_not_blank(now: TranscriptionView, named: bool, outcome: Outcome)
    requires
        transcript_so_far(now) matches Some(t) ==> !blank(t),
    ensures
        transcript_so_far(transcription_after(now, named, outcome)) matches Some(t) ==> !blank(t),
{
}

/// The program that is run is the one that was found to be there.
pub proof fn law_the_program_found_is_run(now: TranscriptionView, named: bool, outcome: Outcome)
    ensures
        transcription_after(now, named, outcome) matches TranscriptionView::Run { program }
            ==> now == (TranscriptionView::MakeDir { program }),
        transcription_after(now, named, outcome) matches TranscriptionView::MakeDir { program }
            ==> now == (TranscriptionView::Probe { tried: program }) && !(outcome is Failed),
{
}

/// A transcription after so many steps, where `world` says how each step goes.
pub open spec fn transcription_run(
    now: TranscriptionView,
    named: bool,
    world: spec_fn(TranscriptionView) -> Outcome,
    steps: nat,
) -> TranscriptionView
    decreases steps,
{
    if steps == 0 {
        now
    } else {
        transcription_run(
            transcription_after(now, named, world(now)),
            named,
            world,
            (steps - 1) as nat,
        )
    }
}

/// The first of the programs that is there, where any is.
pub open spec fn program_found(world: spec_fn(TranscriptionView) -> Outcome) -> Option<nat> {
    if !(world(TranscriptionView::Probe { tried: 0 }) is Failed) {
        Some(0)
    } else if !(world(TranscriptionView::Probe { tried: 1 }) is Failed) {
        Some(1)
    } else if !(world(TranscriptionView::Probe { tried: 2 }) is Failed) {
        Some(2)
    } else {
        None
    }
}

/// Whether the directory of a transcription is made: a program was found, the recording has a name,
/// and making it succeeds.
pub open spec fn directory_made(
    named: bool,
    world: spec_fn(TranscriptionView) -> Outcome,
) -> bool {
    named && (program_found(world) matches Some(program) && !(world(
        TranscriptionView::MakeDir { program },
    ) is Failed))
}

/// Whether a transcription has this transcript: its directory is made, the program that was found
/// succeeds, and what it wrote is this text and not blank.
pub open spec fn has_transcript(
    named: bool,
    world: spec_fn(TranscriptionView) -> Outcome,
    t: Seq<char>,
) -> bool {
    &&& directory_made(named, world)
    &&& program_found(world) matches Some(program) && !(world(TranscriptionView::Run { program })
        is Failed)
    &&& world(TranscriptionView::Read) matches Outcome::Text(written) && written@ == t
    &&& !blank(t)
}

proof fn lemma_run_ended(
    text: Option<Seq<char>>,
    named: bool,
    world: spec_fn(TranscriptionView) -> Outcome,
    steps: nat,
)
    ensures
        transcription_run(TranscriptionView::Done { text }, named, world, steps) == (
        TranscriptionView::Done { text }),
    decreases steps,
{
    if steps > 0 {
        lemma_run_ended(text, named, world, (steps - 1) as nat);
    }
}

proof fn lemma_run_splits(
    now: TranscriptionView,
    named: bool,
    world: spec_fn(TranscriptionView) -> Outcome,
    first: nat,
    more: nat,
)
    ensures
        transcription_run(now, named, world, first + more) == transcription_run(
            transcription_run(now, named, world, first),
            named,
            world,
            more,
        ),
    decreases first,
{
    if first > 0 {
        lemma_run_splits(
            transcription_after(now, named, world(now)),
            named,
            world,
            (first - 1) as nat,
            more,
        );
    }
}

/// A whole transcription, however its steps go, is over after seven of them. It has a transcript
/// exactly where a program was found, the recording has a name, the directory was made, the program
/// succeeded, and what it wrote is not blank; that text is the transcript. Where the directory was
/// made, removing it was one of the steps.
pub proof fn law_whole_transcriptions(
    named: bool,
    world: spec_fn(TranscriptionView) -> Outcome,
    steps: nat,
)
    requires
        steps >= 7,
    ensures
        ({
            let start = TranscriptionView::Probe { tried: 0 };
            let end = transcription_run(start, named, world, steps);
            &&& end is Done
            &&& forall|t: Seq<char>|
                end == (TranscriptionView::Done { text: Some(t) }) <==> #[trigger] has_transcript(
                    named,
                    world,
                    t,
                )
            &&& (forall|t: Seq<char>| !#[trigger] has_transcript(named, world, t)) ==> end == (
            TranscriptionView::Done { text: None })
            &&& directory_made(named, world) ==> exists|n: nat|
                n < steps && #[trigger] transcription_run(start, named, world, n) is CleanUp
        }),
{
    let start = TranscriptionView::Probe { tried: 0 };
    reveal_with_fuel(transcription_run, 8);
    let seventh = transcription_run(start, named, world, 7);
    assert(seventh is Done);
    lemma_run_splits(start, named, world, 7, (steps - 7) as nat);
    lemma_run_ended(seventh->Done_text, named, world, (steps - 7) as nat);
    let end = transcription_run(start, named, world, steps);
    assert(end == seventh);
    assert forall|t: Seq<char>|
        end == (TranscriptionView::Done { text: Some(t) }) <==> #[trigger] has_transcript(
            named,
            world,
            t,
        ) by {}
    if end->Done_text is Some {
        assert(has_transcript(named, world, end->Done_text->0));
    }
    if directory_made(named, world) {
        let p = program_found(world)->0;
        let failed = world(TranscriptionView::Run { program: p }) is Failed;
        let n: nat = if failed {
            p + 3
        } else {
            p + 4
        };
        assert(transcription_run(start, named, world, n) is CleanUp);
    }
}

proof fn lemma_underscores(s: Seq<char>, c: char)
    ensures
        replaced(s, c, "_"@).len() == s.len(),
        forall|i: int|
            0 <= i < s.len() ==> #[trigger] replaced(s, c, "_"@)[i] == if s[i] == c {
                '_'
            } else {
                s[i]
            },
    decreases s.len(),
{
    reveal_strlit("_");
    if s.len() > 0 {
        lemma_underscores(s.drop_last(), c);
    }
}

/// The name of the thread of this number.
pub open spec fn thread_name(number: nat) -> Seq<char> {
    "ThreadId("@ + numeral(number) + ")"@
}

/// Runs in different processes have different output directories, and so have runs in threads
/// whose names differ in more than brackets and blanks.
pub proof fn law_runs_have_their_own_directories(
    pid1: nat,
    thread1: Seq<char>,
    pid2: nat,
    thread2: Seq<char>,
)
    requires
        run_dir(pid1, thread1) == run_dir(pid2, thread2),
    ensures
        pid1 == pid2,
        thread_part(thread1) == thread_part(thread2),
{
    reveal_strlit("_");
    lemma_numeral(pid1);
    lemma_numeral(pid2);
    let head = "omitfs_whisper_"@.len() as int;
    let n1 = numeral(pid1);
    let n2 = numeral(pid2);
    let d1 = run_dir(pid1, thread1);
    let d2 = run_dir(pid2, thread2);
    assert(d1[head + n1.len()] == '_');
    assert(d2[head + n2.len()] == '_');
    assert(!is_digit('_'));
    if n1.len() < n2.len() {
        assert(d2[head + n1.len()] == n2[n1.len() as int]);
    } else if n2.len() < n1.len() {
        assert(d1[head + n2.len()] == n1[n2.len() as int]);
    }
    assert(n1 =~= d1.subrange(head, head + n1.len()));
    assert(n2 =~= d2.subrange(head, head + n2.len()));
    assert(thread_part(thread1) =~= d1.skip(head + n1.len() + 1));
    assert(thread_part(thread2) =~= d2.skip(head + n2.len() + 1));
}

/// Threads of different numbers have different output directories.
pub proof fn law_threads_have_their_own_directories(pid: nat, number1: nat, number2: nat)
    requires
        run_dir(pid, thread_name(number1)) == run_dir(pid, thread_name(number2)),
    ensures
        number1 == number2,
{
    law_runs_have_their_own_directories(pid, thread_name(number1), pid, thread_name(number2));
    lemma_thread_part(number1);
    lemma_thread_part(number2);
    lemma_numeral(number1);
    lemma_numeral(number2);
    let p1 = thread_part(thread_name(number1));
    assert(numeral(number1) =~= p1.subrange(9, p1.len() - 1));
    assert(numeral(number2) =~= p1.subrange(9, p1.len() - 1));
}

proof fn lemma_thread_part(number: nat)
    ensures
        thread_part(thread_name(number)).len() == numeral(number).len() + 10,
        forall|i: int|
            9 <= i < 9 + numeral(number).len() ==> #[trigger] thread_part(thread_name(number))[i]
                == numeral(number)[i - 9],
{
    reveal_strlit("ThreadId(");
    reveal_strlit(")");
    lemma_numeral(number);
    let t = thread_name(number);
    let a = replaced(t, '(', "_"@);
    let b = replaced(a, ')', "_"@);
    lemma_underscores(t, '(');
    lemma_underscores(a, ')');
    lemma_underscores(b, ' ');
    assert forall|i: int| 9 <= i < 9 + numeral(number).len() implies #[trigger] thread_part(t)[i]
        == numeral(number)[i - 9] by {
        assert(is_digit(numeral(number)[i - 9]));
        assert(t[i] == numeral(number)[i - 9]);
        assert(a[i] == t[i]);
        assert(b[i] == a[i]);
    }
}

/// A transcript is what the program wrote, whole and as it is. Where `program` is the first of the
/// three that is there, a recording has one exactly where it has a name, the directory can be made,
/// that program succeeds, its output can be read, and not all of its characters are whitespace.
pub proof fn law_transcripts_are_what_was_written(
    named: bool,
    world: spec_fn(TranscriptionView) -> Outcome,
    steps: nat,
    program: nat,
    t: Seq<char>,
)
    requires
        steps >= 7,
        program < 3,
        world(TranscriptionView::Probe { tried: program }) !is Failed,
        program > 0 ==> world(TranscriptionView::Probe { tried: 0 }) is Failed,
        program > 1 ==> world(TranscriptionView::Probe { tried: 1 }) is Failed,
    ensures
        transcription_run(TranscriptionView::Probe { tried: 0 }, named, world, steps) == (
        TranscriptionView::Done { text: Some(t) }) <==> {
            &&& named
            &&& world(TranscriptionView::MakeDir { program }) !is Failed
            &&& world(TranscriptionView::Run { program }) !is Failed
            &&& world(TranscriptionView::Read) is Text
            &&& world(TranscriptionView::Read)->Text_0@ == t
            &&& exists|i: int| 0 <= i < t.len() && !white_space(#[trigger] t[i])
        },
        transcription_run(TranscriptionView::Probe { tried: 0 }, named, world, steps) is Done,
{
    law_whole_transcriptions(named, world, steps);
    assert(program_found(world) == Some(program));
    let end = transcription_run(TranscriptionView::Probe { tried: 0 }, named, world, steps);
    let has = has_transcript(named, world, t);
    assert(end == (TranscriptionView::Done { text: Some(t) }) <==> has);
}

/// Without any of the three programs there is no transcript.
pub proof fn law_no_program_no_transcript(
    named: bool,
    world: spec_fn(TranscriptionView) -> Outcome,
    steps: nat,
)
    requires
        steps >= 7,
        world(TranscriptionView::Probe { tried: 0 }) is Failed,
        world(TranscriptionView::Probe { tried: 1 }) is Failed,
        world(TranscriptionView::Probe { tried: 2 }) is Failed,
    ensures
        transcription_run(TranscriptionView::Probe { tried: 0 }, named, world, steps) == (
        TranscriptionView::Done { text: None }),
{
    law_whole_transcriptions(named, world, steps);
    assert(program_found(world) is None);
    assert forall|t: Seq<char>| !#[trigger] has_transcript(named, world, t) by {}
}

/// The steps, in order: the programs are looked for one after the other, the directory is made, the
/// program runs, what it wrote is read, and the directory is removed, also where the program failed.
pub proof fn law_transcriptions_go_in_order(
    named: bool,
    outcome: Outcome,
    tried: nat,
    program: nat,
    text: Option<Seq<char>>,
)
    ensures
        outcome is Failed && tried < 2 ==> transcription_after(
            TranscriptionView::Probe { tried },
            named,
            outcome,
        ) == (TranscriptionView::Probe { tried: tried + 1 }),
        outcome is Failed && tried >= 2 ==> transcription_after(
            TranscriptionView::Probe { tried },
            named,
            outcome,
        ) == (TranscriptionView::Done { text: None }),
        outcome !is Failed ==> transcription_after(
            TranscriptionView::Probe { tried },
            true,
            outcome,
        ) == (TranscriptionView::MakeDir { program: tried }),
        outcome !is Failed ==> transcription_after(
            TranscriptionView::MakeDir { program },
            named,
            outcome,
        ) == (TranscriptionView::Run { program }),
        outcome !is Failed ==> transcription_after(
            TranscriptionView::Run { program },
            named,
            outcome,
        ) == TranscriptionView::Read,
        outcome is Failed ==> transcription_after(
            TranscriptionView::Run { program },
            named,
            outcome,
        ) == (TranscriptionView::CleanUp { text: None }),
        transcription_after(TranscriptionView::CleanUp { text }, named, outcome) == (
        TranscriptionView::Done { text }),
{
}

/// The directory of a run names the process and the thread, in which an underscore stands for each
/// bracket and each blank and every other character for itself.
pub proof fn law_directories_name_process_and_thread(pid: nat, thread: Seq<char>)
    ensures
        run_dir(pid, thread) == "omitfs_whisper_"@ + numeral(pid) + "_"@ + thread.map_values(
            |c: char|
                if c == '(' || c == ')' || c == ' ' {
                    '_'
                } else {
                    c
                },
        ),
{
    let a = replaced(thread, '(', "_"@);
    let b = replaced(a, ')', "_"@);
    lemma_underscores(thread, '(');
    lemma_underscores(a, ')');
    lemma_underscores(b, ' ');
    assert(thread_part(thread) =~= thread.map_values(
        |c: char|
            if c == '(' || c == ')' || c == ' ' {
                '_'
            } else {
                c
            },
    ));
}

} // verus!
