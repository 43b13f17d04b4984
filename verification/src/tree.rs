//! The node types and the tree they form.
//!
//! Children are owned: a composite holds its children by value and drops
//! them when it is dropped. All fields are public; every combination of
//! field values is a meaningful tree, so no invariant guards them.

use vstd::prelude::*;

verus! {

use crate::clock::duration_as_nanos;
use crate::clock::nanos_of;
use crate::status::Status;

/// Priority selector: ticks children in order, returns the first
/// non-`Failure` result, `Failure` if every child fails.
pub struct Selector {
    pub name: String,
    pub tasks: Vec<Tree>,
}

/// Ordered sequence: ticks children in order, returns the first
/// non-`Success` result, `Success` if every child succeeds.
pub struct Sequence {
    pub name: String,
    pub tasks: Vec<Tree>,
}

/// Memoizing decorator: delegates to its child until the child returns a
/// terminal result, then returns that cached result forever (until reset).
pub struct Once {
    pub done: Option<Status>,
    pub node: Box<Tree>,
}

/// Timed leaf: the first tick records a start instant and returns
/// `Running`; later ticks return `Success` once the elapsed time reaches
/// the configured span, `Running` before that.
pub struct Wait {
    pub duration_ns: u128,
    pub start: Option<std::time::Instant>,
}

/// Leaf that always returns `Success`.
pub struct AlwaysSuccess;

/// Leaf that always returns `Failure`.
pub struct AlwaysFailure;

/// Leaf that always returns `Running`.
pub struct AlwaysRunning;

/// A behavior tree: one of the node kinds, children included.
pub enum Tree {
    Selector(Selector),
    Sequence(Sequence),
    Once(Once),
    Wait(Wait),
    AlwaysSuccess(AlwaysSuccess),
    AlwaysFailure(AlwaysFailure),
    AlwaysRunning(AlwaysRunning),
}

impl Selector {
    pub fn new(name: String, tasks: Vec<Tree>) -> (s: Selector)
        ensures
            s.name == name,
            s.tasks == tasks,
    {
        Selector { name, tasks }
    }
}

impl Sequence {
    pub fn new(name: String, tasks: Vec<Tree>) -> (s: Sequence)
        ensures
            s.name == name,
            s.tasks == tasks,
    {
        Sequence { name, tasks }
    }
}

impl Once {
    pub fn new(node: Box<Tree>) -> (o: Once)
        ensures
            o.done is None,
            o.node == node,
    {
        Once { done: None, node }
    }
}

impl Wait {
    /// Builds a `Wait` whose span is given in nanoseconds.
    pub fn from_nanos(duration_ns: u128) -> (w: Wait)
        ensures
            w.duration_ns == duration_ns,
            w.start is None,
    {
        Wait { duration_ns, start: None }
    }

    /// Builds a `Wait` from a `std::time::Duration`: the configured span
    /// is stored whole, in nanoseconds, and the start is pristine.
    pub fn new(duration: std::time::Duration) -> (w: Wait)
        ensures
            w.duration_ns == nanos_of(duration),
            w.start is None,
    {
        Wait::from_nanos(duration_as_nanos(&duration))
    }
}

} // verus!
