//! How a step of work outside of the library went.
use vstd::prelude::*;

verus! {

/// How a step of work outside of the library went.
#[derive(Debug)]
pub enum Outcome {
    /// It was done.
    Succeeded,
    /// It could not be done.
    Failed,
    /// It was done, and gave this text.
    Text(String),
}

} // verus!
