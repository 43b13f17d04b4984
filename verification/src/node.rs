//! The capability every tree element offers, and its implementations.

use vstd::prelude::*;

verus! {

use crate::semantics::label_ok;
use crate::semantics::resets;
use crate::semantics::step;
use crate::semantics::tick_trace_ok;
use crate::status::Status;
use crate::tick::lemma_one_entry_trace;
use crate::tick::once_report;
use crate::tick::reset_selector;
use crate::tick::reset_sequence;
use crate::tick::reset_tree;
use crate::tick::tick_once;
use crate::tick::tick_selector;
use crate::tick::tick_sequence;
use crate::tick::tick_tree;
use crate::tick::tick_wait;
use crate::tick::trace_push;
use crate::tick::wait_report;
use crate::tree::AlwaysFailure;
use crate::tree::AlwaysRunning;
use crate::tree::AlwaysSuccess;
use crate::tree::Once;
use crate::tree::Selector;
use crate::tree::Sequence;
use crate::tree::Tree;
use crate::tree::Wait;

/// A behavior-tree node: it can be ticked, report a label, and be reset.
///
/// `tree` is the node seen as a [`Tree`], the form the semantics speak
/// of; the three methods are bound to the relations of
/// [`crate::semantics`] through it.
pub trait Node {
    /// The tree this node stands for, for specification purposes.
    spec fn tree(&self) -> Tree;

    /// Advances the node by one step and reports the outcome. When a
    /// trace slot is supplied, appends exactly this node's entry at
    /// `depth` followed by the traces of the descendants it ticked.
    fn tick(&mut self, depth: usize, debug: &mut Option<Vec<(usize, String)>>) -> (r: Status)
        ensures
            step(old(self).tree(), final(self).tree(), r),
            tick_trace_ok(
                old(self).tree(),
                final(self).tree(),
                r,
                *old(debug),
                *final(debug),
                depth,
            ),
    ;

    /// Reports this node's label without changing it.
    fn name(&self) -> (r: String)
        ensures
            label_ok(self.tree(), r@),
    ;

    /// Returns the node to its pre-first-tick condition, children
    /// included.
    fn reset(&mut self)
        ensures
            resets(old(self).tree(), final(self).tree()),
    ;
}

impl Node for Tree {
    open spec fn tree(&self) -> Tree {
        *self
    }

    fn tick(&mut self, depth: usize, debug: &mut Option<Vec<(usize, String)>>) -> (r: Status) {
        let mut tmp = Tree::AlwaysSuccess(AlwaysSuccess);
        core::mem::swap(self, &mut tmp);
        let (t2, r) = tick_tree(tmp, depth, debug);
        *self = t2;
        r
    }

    fn name(&self) -> (r: String) {
        match self {
            Tree::Selector(x) => x.name.clone(),
            Tree::Sequence(x) => x.name.clone(),
            Tree::Once(o) => once_report(o),
            Tree::Wait(w) => wait_report(w),
            Tree::AlwaysSuccess(_) => "always-success".to_owned(),
            Tree::AlwaysFailure(_) => "always-failure".to_owned(),
            Tree::AlwaysRunning(_) => "always-running".to_owned(),
        }
    }

    fn reset(&mut self) {
        let mut tmp = Tree::AlwaysSuccess(AlwaysSuccess);
        core::mem::swap(self, &mut tmp);
        let t2 = reset_tree(tmp);
        *self = t2;
    }
}

impl Node for Selector {
    open spec fn tree(&self) -> Tree {
        Tree::Selector(*self)
    }

    fn tick(&mut self, depth: usize, debug: &mut Option<Vec<(usize, String)>>) -> (r: Status) {
        let mut tmp = Selector { name: String::new(), tasks: Vec::new() };
        core::mem::swap(self, &mut tmp);
        let (x2, r) = tick_selector(tmp, depth, debug);
        *self = x2;
        r
    }

    fn name(&self) -> (r: String) {
        self.name.clone()
    }

    fn reset(&mut self) {
        let mut tmp = Selector { name: String::new(), tasks: Vec::new() };
        core::mem::swap(self, &mut tmp);
        let x2 = reset_selector(tmp);
        *self = x2;
    }
}

impl Node for Sequence {
    open spec fn tree(&self) -> Tree {
        Tree::Sequence(*self)
    }

    fn tick(&mut self, depth: usize, debug: &mut Option<Vec<(usize, String)>>) -> (r: Status) {
        let mut tmp = Sequence { name: String::new(), tasks: Vec::new() };
        core::mem::swap(self, &mut tmp);
        let (x2, r) = tick_sequence(tmp, depth, debug);
        *self = x2;
        r
    }

    fn name(&self) -> (r: String) {
        self.name.clone()
    }

    fn reset(&mut self) {
        let mut tmp = Sequence { name: String::new(), tasks: Vec::new() };
        core::mem::swap(self, &mut tmp);
        let x2 = reset_sequence(tmp);
        *self = x2;
    }
}

impl Node for Once {
    open spec fn tree(&self) -> Tree {
        Tree::Once(*self)
    }

    fn tick(&mut self, depth: usize, debug: &mut Option<Vec<(usize, String)>>) -> (r: Status) {
        let mut tmp = Once { done: Option::None, node: Box::new(Tree::AlwaysSuccess(AlwaysSuccess)) };
        core::mem::swap(self, &mut tmp);
        let (o2, r) = tick_once(tmp, depth, debug);
        *self = o2;
        r
    }

    fn name(&self) -> (r: String) {
        once_report(self)
    }

    fn reset(&mut self) {
        let mut tmp = Once { done: Option::None, node: Box::new(Tree::AlwaysSuccess(AlwaysSuccess)) };
        core::mem::swap(self, &mut tmp);
        let Once { done: _, node } = tmp;
        let child2 = reset_tree(*node);
        *self = Once { done: Option::None, node: Box::new(child2) };
    }
}

impl Node for Wait {
    open spec fn tree(&self) -> Tree {
        Tree::Wait(*self)
    }

    fn tick(&mut self, depth: usize, debug: &mut Option<Vec<(usize, String)>>) -> (r: Status) {
        let mut tmp = Wait { duration_ns: 0, start: Option::None };
        core::mem::swap(self, &mut tmp);
        let (w2, r) = tick_wait(tmp, depth, debug);
        *self = w2;
        r
    }

    fn name(&self) -> (r: String) {
        wait_report(self)
    }

    fn reset(&mut self) {
        self.start = Option::None;
    }
}

impl Node for AlwaysSuccess {
    open spec fn tree(&self) -> Tree {
        Tree::AlwaysSuccess(*self)
    }

    fn tick(&mut self, depth: usize, debug: &mut Option<Vec<(usize, String)>>) -> (r: Status) {
        let ghost d0 = *debug;
        trace_push(debug, depth, "always-success".to_owned());
        proof {
            assert(step(Tree::AlwaysSuccess(*self), Tree::AlwaysSuccess(*self), Status::Success));
            lemma_one_entry_trace(
                Tree::AlwaysSuccess(*self),
                Tree::AlwaysSuccess(*self),
                Status::Success,
                d0,
                *debug,
                depth,
                "always-success"@,
            );
        }
        Status::Success
    }

    fn name(&self) -> (r: String) {
        "always-success".to_owned()
    }

    fn reset(&mut self) {
    }
}

impl Node for AlwaysFailure {
    open spec fn tree(&self) -> Tree {
        Tree::AlwaysFailure(*self)
    }

    fn tick(&mut self, depth: usize, debug: &mut Option<Vec<(usize, String)>>) -> (r: Status) {
        let ghost d0 = *debug;
        trace_push(debug, depth, "always-failure".to_owned());
        proof {
            assert(step(Tree::AlwaysFailure(*self), Tree::AlwaysFailure(*self), Status::Failure));
            lemma_one_entry_trace(
                Tree::AlwaysFailure(*self),
                Tree::AlwaysFailure(*self),
                Status::Failure,
                d0,
                *debug,
                depth,
                "always-failure"@,
            );
        }
        Status::Failure
    }

    fn name(&self) -> (r: String) {
        "always-failure".to_owned()
    }

    fn reset(&mut self) {
    }
}

impl Node for AlwaysRunning {
    open spec fn tree(&self) -> Tree {
        Tree::AlwaysRunning(*self)
    }

    fn tick(&mut self, depth: usize, debug: &mut Option<Vec<(usize, String)>>) -> (r: Status) {
        let ghost d0 = *debug;
        trace_push(debug, depth, "always-running".to_owned());
        proof {
            assert(step(Tree::AlwaysRunning(*self), Tree::AlwaysRunning(*self), Status::Running));
            lemma_one_entry_trace(
                Tree::AlwaysRunning(*self),
                Tree::AlwaysRunning(*self),
                Status::Running,
                d0,
                *debug,
                depth,
                "always-running"@,
            );
        }
        Status::Running
    }

    fn name(&self) -> (r: String) {
        "always-running".to_owned()
    }

    fn reset(&mut self) {
    }
}

} // verus!
