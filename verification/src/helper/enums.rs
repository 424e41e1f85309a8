use vstd::prelude::*;

verus! {

/// The outcome of one step of a resumable computation: either more input is
/// needed (carrying the saved progress), or the computation is finished
/// (carrying its result).
pub enum Processing<P, F> {
    InProgress(P),
    Finished(F),
}

} // verus!
