use vstd::prelude::*;

verus! {

/// The three-valued result of a tick.
///
/// `Failure` is an ordinary outcome, not an error: it is how a `Selector`
/// moves on to its next alternative and how a `Sequence` aborts.
#[derive(Clone, Copy, Debug, PartialEq, Eq, Structural)]
pub enum Status {
    Success,
    Failure,
    Running,
}

} // verus!
