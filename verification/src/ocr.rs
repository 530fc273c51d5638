//! Text from images, by the Tesseract program.
use vstd::prelude::*;

use crate::ingest::{non_blank, string_option, unless_blank};
use crate::step::Outcome;
use crate::text::{blank, texts, white_space};

verus! {

/// The program.
pub fn program() -> (r: &'static str)
    ensures
        r@ == "tesseract"@,
{
    "tesseract"
}

/// What the program is given to see whether it is there.
pub fn probe_argument() -> (r: &'static str)
    ensures
        r@ == "--version"@,
{
    "--version"
}

/// What the program is given after the image and the name of its output.
pub fn trailing_arguments() -> (r: Vec<String>)
    ensures
        texts(r@) == seq!["-l"@, "eng"@],
{
    let mut out: Vec<String> = Vec::new();
    out.push("-l".to_owned());
    out.push("eng".to_owned());
    assert(texts(out@) =~= seq!["-l"@, "eng"@]);
    out
}

/// The name of the output, to which the program appends an extension of its own.
pub fn output_base() -> (r: &'static str)
    ensures
        r@ == "omitfs_ocr_out"@,
{
    "omitfs_ocr_out"
}

/// The file that the program writes.
pub fn output_file() -> (r: &'static str)
    ensures
        r@ == "omitfs_ocr_out.txt"@,
{
    "omitfs_ocr_out.txt"
}

/// The next step in getting the text of an image.
#[derive(Debug)]
pub enum Ocr {
    /// Start the program, to see whether it is there.
    Probe,
    /// Remove the output of an earlier run.
    ClearStale,
    /// Run the program on the image.
    Run,
    /// Read the output.
    Read,
    /// Remove the output.
    CleanUp { text: Option<String> },
    /// Nothing more: this is the text, where there is any.
    Done { text: Option<String> },
}

/// The view of a step.
pub enum OcrView {
    Probe,
    ClearStale,
    Run,
    Read,
    CleanUp { text: Option<Seq<char>> },
    Done { text: Option<Seq<char>> },
}

impl View for Ocr {
    type V = OcrView;

    open spec fn view(&self) -> OcrView {
        match self {
            Ocr::Probe => OcrView::Probe,
            Ocr::ClearStale => OcrView::ClearStale,
            Ocr::Run => OcrView::Run,
            Ocr::Read => OcrView::Read,
            Ocr::CleanUp { text } => OcrView::CleanUp { text: string_option(*text) },
            Ocr::Done { text } => OcrView::Done { text: string_option(*text) },
        }
    }
}

/// The step after a step that went like this. Without the program, or where it fails, there is no
/// text. Output that cannot be read counts as empty, and whether a file could be removed makes no
/// difference.
pub open spec fn ocr_after(now: OcrView, outcome: Outcome) -> OcrView {
    match now {
        OcrView::Probe => if outcome is Failed {
            OcrView::Done { text: None }
        } else {
            OcrView::ClearStale
        },
        OcrView::ClearStale => OcrView::Run,
        OcrView::Run => if outcome is Failed {
            OcrView::Done { text: None }
        } else {
            OcrView::Read
        },
        OcrView::Read => OcrView::CleanUp {
            text: match outcome {
                Outcome::Text(t) => unless_blank(t@),
                _ => None,
            },
        },
        OcrView::CleanUp { text } => OcrView::Done { text },
        OcrView::Done { text } => OcrView::Done { text },
    }
}

/// Decides on the next step in getting the text of an image.
pub fn extract_image_text(now: Ocr, outcome: Outcome) -> (r: Ocr)
    ensures
        r@ == ocr_after(now@, outcome),
{
    match now {
        Ocr::Probe => match outcome {
            Outcome::Failed => Ocr::Done { text: None },
            _ => Ocr::ClearStale,
        },
        Ocr::ClearStale => Ocr::Run,
        Ocr::Run => match outcome {
            Outcome::Failed => Ocr::Done { text: None },
            _ => Ocr::Read,
        },
        Ocr::Read => match outcome {
            Outcome::Text(t) => Ocr::CleanUp { text: non_blank(t) },
            _ => Ocr::CleanUp { text: None },
        },
        Ocr::CleanUp { text } => Ocr::Done { text },
        Ocr::Done { text } => Ocr::Done { text },
    }
}

/// How many steps there are at most before the text is known.
pub open spec fn ocr_steps_left(now: OcrView) -> nat {
    match now {
        OcrView::Probe => 5,
        OcrView::ClearStale => 4,
        OcrView::Run => 3,
        OcrView::Read => 2,
        OcrView::CleanUp { .. } => 1,
        OcrView::Done { .. } => 0,
    }
}

/// The text that was got so far.
pub open spec fn ocr_text(now: OcrView) -> Option<Seq<char>> {
    match now {
        OcrView::CleanUp { text } => text,
        OcrView::Done { text } => text,
        _ => None,
    }
}

/// However its steps go, getting the text of an image comes to an end.
pub proof fn law_ocr_ends(now: OcrView, outcome: Outcome)
    ensures
        now !is Done ==> ocr_steps_left(ocr_after(now, outcome)) < ocr_steps_left(now),
        now is Done ==> ocr_after(now, outcome) == now,
{
}

/// The text of an image is never blank.
pub proof fn law_ocr_text_is_not_blank(now: OcrView, outcome: Outcome)
    requires
        ocr_text(now) matches Some(t) ==> !blank(t),
    ensures
        ocr_text(ocr_after(now, outcome)) matches Some(t) ==> !blank(t),
{
}

/// The program only runs when the output of an earlier run was cleared away, and what it wrote is
/// removed once it was read.
pub proof fn law_ocr_leaves_nothing_behind(now: OcrView, outcome: Outcome)
    ensures
        ocr_after(now, outcome) is Run ==> now is ClearStale,
        now is Read ==> ocr_after(now, outcome) is CleanUp,
        ocr_after(now, outcome) matches OcrView::Done { text: Some(_) } ==> now is CleanUp
            || now is Done,
{
}

/// Getting the text of an image after so many steps, where `world` says how each step goes.
pub open spec fn ocr_run(now: OcrView, world: spec_fn(OcrView) -> Outcome, steps: nat) -> OcrView
    decreases steps,
{
    if steps == 0 {
        now
    } else {
        ocr_run(ocr_after(now, world(now)), world, (steps - 1) as nat)
    }
}

/// Whether an image has this text: the program is there and succeeds, and what it wrote is this
/// text and not blank.
pub open spec fn has_image_text(world: spec_fn(OcrView) -> Outcome, t: Seq<char>) -> bool {
    &&& !(world(OcrView::Probe) is Failed)
    &&& !(world(OcrView::Run) is Failed)
    &&& world(OcrView::Read) matches Outcome::Text(written) && written@ == t
    &&& !blank(t)
}

proof fn lemma_ocr_ended(
    text: Option<Seq<char>>,
    world: spec_fn(OcrView) -> Outcome,
    steps: nat,
)
    ensures
        ocr_run(OcrView::Done { text }, world, steps) == (OcrView::Done { text }),
    decreases steps,
{
    if steps > 0 {
        lemma_ocr_ended(text, world, (steps - 1) as nat);
    }
}

proof fn lemma_ocr_splits(
    now: OcrView,
    world: spec_fn(OcrView) -> Outcome,
    first: nat,
    more: nat,
)
    ensures
        ocr_run(now, world, first + more) == ocr_run(ocr_run(now, world, first), world, more),
    decreases first,
{
    if first > 0 {
        lemma_ocr_splits(ocr_after(now, world(now)), world, (first - 1) as nat, more);
    }
}

/// Getting the text of an image, however its steps go, is over after five of them. There is a text
/// exactly where the program is there, it succeeded, and what it wrote is not blank; that is the
/// text.
pub proof fn law_whole_image_texts(world: spec_fn(OcrView) -> Outcome, steps: nat)
    requires
        steps >= 5,
    ensures
        ({
            let end = ocr_run(OcrView::Probe, world, steps);
            &&& end is Done
            &&& forall|t: Seq<char>|
                end == (OcrView::Done { text: Some(t) }) <==> #[trigger] has_image_text(world, t)
            &&& (forall|t: Seq<char>| !#[trigger] has_image_text(world, t)) ==> end == (
            OcrView::Done { text: None })
        }),
{
    reveal_with_fuel(ocr_run, 6);
    let fifth = ocr_run(OcrView::Probe, world, 5);
    assert(fifth is Done);
    lemma_ocr_splits(OcrView::Probe, world, 5, (steps - 5) as nat);
    lemma_ocr_ended(fifth->Done_text, world, (steps - 5) as nat);
    let end = ocr_run(OcrView::Probe, world, steps);
    assert(end == fifth);
    assert forall|t: Seq<char>|
        end == (OcrView::Done { text: Some(t) }) <==> #[trigger] has_image_text(world, t) by {}
    if end->Done_text is Some {
        assert(has_image_text(world, end->Done_text->0));
    }
}

/// The text of an image is what the program wrote, whole and as it is: there is one exactly where the
/// program is there and succeeds, its output can be read, and not all of its characters are
/// whitespace.
pub proof fn law_image_texts_are_what_was_written(
    world: spec_fn(OcrView) -> Outcome,
    steps: nat,
    t: Seq<char>,
)
    requires
        steps >= 5,
    ensures
        ocr_run(OcrView::Probe, world, steps) == (OcrView::Done { text: Some(t) }) <==> {
            &&& world(OcrView::Probe) !is Failed
            &&& world(OcrView::Run) !is Failed
            &&& world(OcrView::Read) is Text
            &&& world(OcrView::Read)->Text_0@ == t
            &&& exists|i: int| 0 <= i < t.len() && !white_space(#[trigger] t[i])
        },
        ocr_run(OcrView::Probe, world, steps) is Done,
{
    law_whole_image_texts(world, steps);
    let end = ocr_run(OcrView::Probe, world, steps);
    let has = has_image_text(world, t);
    assert(end == (OcrView::Done { text: Some(t) }) <==> has);
}

/// The steps, in order: the program is looked for, earlier output is removed, the program runs, what
/// it wrote is read and then removed.
pub proof fn law_ocr_goes_in_order(outcome: Outcome, text: Option<Seq<char>>)
    ensures
        outcome !is Failed ==> ocr_after(OcrView::Probe, outcome) == OcrView::ClearStale,
        outcome is Failed ==> ocr_after(OcrView::Probe, outcome) == (OcrView::Done { text: None }),
        ocr_after(OcrView::ClearStale, outcome) == OcrView::Run,
        outcome !is Failed ==> ocr_after(OcrView::Run, outcome) == OcrView::Read,
        outcome is Failed ==> ocr_after(OcrView::Run, outcome) == (OcrView::Done { text: None }),
        ocr_after(OcrView::CleanUp { text }, outcome) == (OcrView::Done { text }),
{
}

} // verus!
