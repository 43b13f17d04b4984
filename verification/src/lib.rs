//! A behavior-tree execution engine.
//!
//! A tree of decision nodes is evaluated one step at a time: each call of
//! `tick` advances the tree and reports `Success`, `Failure`, or `Running`.
//! Composites (`Selector`, `Sequence`) combine their children's results in
//! declaration order with short-circuiting; `Once` caches its child's first
//! terminal result; `Wait` succeeds once a configured span of real time has
//! passed. An optional trace records which node ran at which depth.
//!
//! The meaning of a single tick is captured by the transition relation
//! [`semantics::step`]; every `tick` implementation is verified against it.

use vstd::prelude::*;

mod clock;
pub mod laws;
mod node;
pub mod semantics;
mod status;
pub mod text;
pub mod tick;
mod tree;

pub use node::Node;
pub use status::Status;
pub use tree::AlwaysFailure;
pub use tree::AlwaysRunning;
pub use tree::AlwaysSuccess;
pub use tree::Once;
pub use tree::Selector;
pub use tree::Sequence;
pub use tree::Tree;
pub use tree::Wait;
