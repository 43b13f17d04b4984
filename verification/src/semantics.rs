//! What one tick means.
//!
//! [`step`] is the transition relation of a single tick: it relates the
//! tree before the call, the tree after it, and the returned status. It is
//! a relation, not a function, because a started [`crate::Wait`] consults
//! the real clock: both of its possible outcomes are admitted, and a proof
//! may assume nothing about which one occurs.

use vstd::prelude::*;

verus! {

use crate::status::Status;
use crate::text::remaining_of;
use crate::text::wait_label;
use crate::tree::Selector;
use crate::tree::Sequence;
use crate::tree::Tree;

/// Children `i..` of `post` are exactly those of `pre`: they were never
/// ticked.
pub open spec fn unchanged_from(pre: Seq<Tree>, post: Seq<Tree>, i: int) -> bool {
    forall|j: int| i <= j < pre.len() ==> (#[trigger] post[j]) == pre[j]
}

/// One tick of `pre` may leave `post` behind and return `r`.
pub open spec fn step(pre: Tree, post: Tree, r: Status) -> bool
    decreases pre, 0int,
{
    match pre {
        Tree::AlwaysSuccess(_) => post == pre && r == Status::Success,
        Tree::AlwaysFailure(_) => post == pre && r == Status::Failure,
        Tree::AlwaysRunning(_) => post == pre && r == Status::Running,
        Tree::Wait(w) => match w.start {
            Option::None => {
                &&& post matches Tree::Wait(w2) && w2.duration_ns == w.duration_ns && w2.start
                    is Some
                &&& r == Status::Running
            },
            Option::Some(_) => {
                &&& post == pre
                &&& r != Status::Failure
                &&& w.duration_ns == 0 ==> r == Status::Success
            },
        },
        Tree::Once(o) => match o.done {
            Option::Some(s) => post == pre && r == s,
            Option::None => post matches Tree::Once(o2) && {
                ||| (step(*o.node, *o2.node, Status::Running) && o2.done is None && r
                    == Status::Running)
                ||| (step(*o.node, *o2.node, Status::Success) && o2.done == Some(Status::Success)
                    && r == Status::Success)
                ||| (step(*o.node, *o2.node, Status::Failure) && o2.done == Some(Status::Failure)
                    && r == Status::Failure)
            },
        },
        Tree::Selector(x) => post matches Tree::Selector(x2) && x2.name == x.name
            && x2.tasks@.len() == x.tasks@.len() && sel_step(x.tasks@, x2.tasks@, 0, r),
        Tree::Sequence(x) => post matches Tree::Sequence(x2) && x2.name == x.name
            && x2.tasks@.len() == x.tasks@.len() && seq_step(x.tasks@, x2.tasks@, 0, r),
    }
}

/// A selector's children from `i` on may tick from `pre` to `post` with
/// aggregate result `r`: children fail and are passed over until the first
/// `Success` or `Running` short-circuits, and children past that point are
/// untouched; if every child fails the aggregate is `Failure`.
pub open spec fn sel_step(pre: Seq<Tree>, post: Seq<Tree>, i: int, r: Status) -> bool
    decreases pre, pre.len() - i,
{
    if !(0 <= i <= pre.len() && post.len() == pre.len()) {
        false
    } else if i == pre.len() {
        r == Status::Failure
    } else {
        ||| (step(pre[i], post[i], Status::Success) && r == Status::Success && unchanged_from(
            pre,
            post,
            i + 1,
        ))
        ||| (step(pre[i], post[i], Status::Running) && r == Status::Running && unchanged_from(
            pre,
            post,
            i + 1,
        ))
        ||| (step(pre[i], post[i], Status::Failure) && sel_step(pre, post, i + 1, r))
    }
}

/// A sequence's children from `i` on may tick from `pre` to `post` with
/// aggregate result `r`: children succeed and are passed over until the
/// first `Failure` or `Running` short-circuits, and children past that
/// point are untouched; if every child succeeds the aggregate is `Success`.
pub open spec fn seq_step(pre: Seq<Tree>, post: Seq<Tree>, i: int, r: Status) -> bool
    decreases pre, pre.len() - i,
{
    if !(0 <= i <= pre.len() && post.len() == pre.len()) {
        false
    } else if i == pre.len() {
        r == Status::Success
    } else {
        ||| (step(pre[i], post[i], Status::Failure) && r == Status::Failure && unchanged_from(
            pre,
            post,
            i + 1,
        ))
        ||| (step(pre[i], post[i], Status::Running) && r == Status::Running && unchanged_from(
            pre,
            post,
            i + 1,
        ))
        ||| (step(pre[i], post[i], Status::Success) && seq_step(pre, post, i + 1, r))
    }
}

/// `t` can only ever tick to status `s`: every transition the relation
/// admits for `t` yields `s`.
pub open spec fn always_yields(t: Tree, s: Status) -> bool {
    forall|post: Tree, r: Status| #[trigger] step(t, post, r) ==> r == s
}

/// The label a node reports for itself. Exact except for a started
/// `Wait`, whose remaining time depends on the clock: there, any remaining
/// span up to the full one is admitted.
pub open spec fn label_ok(t: Tree, s: Seq<char>) -> bool {
    match t {
        Tree::Selector(x) => s == x.name@,
        Tree::Sequence(x) => s == x.name@,
        Tree::Once(o) => match o.done {
            Option::None => s == "once"@,
            Option::Some(Status::Success) => s == "once cached Success"@,
            Option::Some(Status::Failure) => s == "once cached Failure"@,
            Option::Some(Status::Running) => s == "once cached Running"@,
        },
        Tree::Wait(w) => match w.start {
            Option::None => s == wait_label((w.duration_ns / 1000000) as nat),
            Option::Some(_) => exists|elapsed_ms: nat|
                s == wait_label(
                    #[trigger] remaining_of((w.duration_ns / 1000000) as nat, elapsed_ms),
                ),
        },
        Tree::AlwaysSuccess(_) => s == "always-success"@,
        Tree::AlwaysFailure(_) => s == "always-failure"@,
        Tree::AlwaysRunning(_) => s == "always-running"@,
    }
}

/// The depth handed to a node's children: one deeper, held at the top of
/// the range rather than overflowing.
pub open spec fn spec_next_depth(depth: usize) -> usize {
    if depth == usize::MAX {
        depth
    } else {
        (depth + 1) as usize
    }
}

/// How one tick of `pre` at `depth` may change the trace slot: an absent
/// trace stays absent; a present one only grows, the node's own entry
/// first, any entries from its children at greater depths after it.
pub open spec fn trace_extended(
    pre: Tree,
    dbg0: Option<Vec<(usize, String)>>,
    dbg1: Option<Vec<(usize, String)>>,
    depth: usize,
) -> bool {
    match dbg0 {
        Option::None => dbg1 is None,
        Option::Some(v0) => {
            &&& dbg1 matches Option::Some(v1)
            &&& v0@.len() < v1@.len()
            &&& v1@.subrange(0, v0@.len() as int) == v0@
            &&& v1@[v0@.len() as int].0 == depth
            &&& label_ok(pre, v1@[v0@.len() as int].1@)
            &&& forall|k: int|
                v0@.len() < k < v1@.len() ==> (#[trigger] v1@[k]).0 >= spec_next_depth(depth)
        },
    }
}

/// What `trace_push` does to the trace slot: appends one entry when the
/// slot is present, does nothing when it is absent.
pub open spec fn trace_pushed(
    dbg0: Option<Vec<(usize, String)>>,
    dbg1: Option<Vec<(usize, String)>>,
    depth: usize,
    label: Seq<char>,
) -> bool {
    match dbg0 {
        Option::None => dbg1 is None,
        Option::Some(v0) => {
            &&& dbg1 matches Option::Some(v1)
            &&& v1@.len() == v0@.len() + 1
            &&& v1@.subrange(0, v0@.len() as int) == v0@
            &&& v1@[v0@.len() as int].0 == depth
            &&& v1@[v0@.len() as int].1@ == label
        },
    }
}

/// `post` is `pre` returned to its pre-first-tick condition: every `Wait`
/// start and every `Once` cache is cleared, recursively; names, spans,
/// child count and child order are kept.
pub open spec fn resets(pre: Tree, post: Tree) -> bool
    decreases pre, 0int,
{
    match pre {
        Tree::Selector(x) => post matches Tree::Selector(x2) && x2.name == x.name && reset_kids(
            x.tasks@,
            x2.tasks@,
            0,
        ),
        Tree::Sequence(x) => post matches Tree::Sequence(x2) && x2.name == x.name && reset_kids(
            x.tasks@,
            x2.tasks@,
            0,
        ),
        Tree::Once(o) => post matches Tree::Once(o2) && o2.done is None && resets(
            *o.node,
            *o2.node,
        ),
        Tree::Wait(w) => post matches Tree::Wait(w2) && w2.duration_ns == w.duration_ns
            && w2.start is None,
        Tree::AlwaysSuccess(_) => post == pre,
        Tree::AlwaysFailure(_) => post == pre,
        Tree::AlwaysRunning(_) => post == pre,
    }
}

/// Children `i..` of `post` are those of `pre`, each reset.
pub open spec fn reset_kids(pre: Seq<Tree>, post: Seq<Tree>, i: int) -> bool
    decreases pre, pre.len() - i,
{
    &&& post.len() == pre.len()
    &&& 0 <= i <= pre.len()
    &&& i < pre.len() ==> resets(pre[i], post[i]) && reset_kids(pre, post, i + 1)
}

/// The trace segments of a row of children, in order, as one sequence.
pub open spec fn cat(segs: Seq<Seq<(usize, String)>>) -> Seq<(usize, String)>
    decreases segs.len(),
{
    if segs.len() == 0 {
        Seq::empty()
    } else {
        segs[0] + cat(segs.skip(1))
    }
}

/// The engine behind [`steptr`]: one recursive walk that plays two
/// roles. With `at_node` set it relates one tick of the node `anchor` to
/// `post`, `r` and its exact trace `tr`; with `at_node` clear it walks
/// the children `kids[i..]` / `kids2[i..]` of the composite `anchor`
/// (`sel` tells a selector from a sequence), whose traced ticks laid end
/// to end are `tr`. Carrying the composite as `anchor` gives the
/// recursion its measure, which is why the two roles share one function.
pub open spec fn trace_walk(
    anchor: Tree,
    at_node: bool,
    post: Tree,
    kids: Seq<Tree>,
    kids2: Seq<Tree>,
    sel: bool,
    i: int,
    r: Status,
    d: usize,
    tr: Seq<(usize, String)>,
) -> bool
    decreases anchor, (if at_node {
        1int
    } else {
        0int
    }), (if at_node {
        0int
    } else {
        kids.len() - i
    }),
        when at_node || (anchor matches Tree::Selector(s) && kids == s.tasks@) || (anchor matches
        Tree::Sequence(s) && kids == s.tasks@)
{
    if at_node {
        &&& tr.len() >= 1
        &&& tr[0].0 == d
        &&& label_ok(anchor, tr[0].1@)
        &&& match anchor {
            Tree::AlwaysSuccess(_) => post == anchor && r == Status::Success && tr.len() == 1,
            Tree::AlwaysFailure(_) => post == anchor && r == Status::Failure && tr.len() == 1,
            Tree::AlwaysRunning(_) => post == anchor && r == Status::Running && tr.len() == 1,
            Tree::Wait(w) => tr.len() == 1 && match w.start {
                Option::None => post matches Tree::Wait(w2) && w2.duration_ns == w.duration_ns
                    && w2.start is Some && r == Status::Running,
                Option::Some(_) => post == anchor && r != Status::Failure && (w.duration_ns == 0
                    ==> r == Status::Success),
            },
            Tree::Once(o) => match o.done {
                Option::Some(s) => post == anchor && r == s && tr.len() == 1,
                Option::None => post matches Tree::Once(o2) && {
                    ||| (trace_walk(
                        *o.node,
                        true,
                        *o2.node,
                        Seq::empty(),
                        Seq::empty(),
                        true,
                        0,
                        Status::Running,
                        spec_next_depth(d),
                        tr.skip(1),
                    ) && o2.done is None && r == Status::Running)
                    ||| (trace_walk(
                        *o.node,
                        true,
                        *o2.node,
                        Seq::empty(),
                        Seq::empty(),
                        true,
                        0,
                        Status::Success,
                        spec_next_depth(d),
                        tr.skip(1),
                    ) && o2.done == Some(Status::Success) && r == Status::Success)
                    ||| (trace_walk(
                        *o.node,
                        true,
                        *o2.node,
                        Seq::empty(),
                        Seq::empty(),
                        true,
                        0,
                        Status::Failure,
                        spec_next_depth(d),
                        tr.skip(1),
                    ) && o2.done == Some(Status::Failure) && r == Status::Failure)
                },
            },
            Tree::Selector(x) => post matches Tree::Selector(x2) && x2.name == x.name
                && x2.tasks@.len() == x.tasks@.len() && trace_walk(
                anchor,
                false,
                post,
                x.tasks@,
                x2.tasks@,
                true,
                0,
                r,
                spec_next_depth(d),
                tr.skip(1),
            ),
            Tree::Sequence(x) => post matches Tree::Sequence(x2) && x2.name == x.name
                && x2.tasks@.len() == x.tasks@.len() && trace_walk(
                anchor,
                false,
                post,
                x.tasks@,
                x2.tasks@,
                false,
                0,
                r,
                spec_next_depth(d),
                tr.skip(1),
            ),
        }
    } else {
        if !(0 <= i <= kids.len() && kids2.len() == kids.len()) {
            false
        } else if i == kids.len() {
            tr.len() == 0 && r == (if sel {
                Status::Failure
            } else {
                Status::Success
            })
        } else {
            ||| (trace_walk(
                kids[i],
                true,
                kids2[i],
                Seq::empty(),
                Seq::empty(),
                true,
                0,
                (if sel {
                    Status::Success
                } else {
                    Status::Failure
                }),
                d,
                tr,
            ) && r == (if sel {
                Status::Success
            } else {
                Status::Failure
            }) && unchanged_from(kids, kids2, i + 1))
            ||| (trace_walk(
                kids[i],
                true,
                kids2[i],
                Seq::empty(),
                Seq::empty(),
                true,
                0,
                Status::Running,
                d,
                tr,
            ) && r == Status::Running && unchanged_from(kids, kids2, i + 1))
            ||| (exists|n: int|
                #![trigger tr.subrange(0, n)]
                0 < n && n <= tr.len() && trace_walk(
                    kids[i],
                    true,
                    kids2[i],
                    Seq::empty(),
                    Seq::empty(),
                    true,
                    0,
                    (if sel {
                        Status::Failure
                    } else {
                        Status::Success
                    }),
                    d,
                    tr.subrange(0, n),
                ) && trace_walk(
                    anchor,
                    false,
                    post,
                    kids,
                    kids2,
                    sel,
                    i + 1,
                    r,
                    d,
                    tr.subrange(n, tr.len() as int),
                ))
        }
    }
}

/// One tick of `pre` at `depth`: `post` is the tree it leaves behind, `r`
/// the status it returns, and `tr` exactly the entries it appends — the
/// node's own entry, then the traces of the children it ticked, in
/// order. This conjoins everything [`step`] says, so the recorded child
/// outcomes are the ones that actually happened; nodes passed over by a
/// short-circuit appear nowhere in `tr`.
pub open spec fn steptr(
    pre: Tree,
    post: Tree,
    r: Status,
    depth: usize,
    tr: Seq<(usize, String)>,
) -> bool {
    trace_walk(pre, true, post, Seq::empty(), Seq::empty(), true, 0, r, depth, tr)
}

/// The traced counterpart of [`sel_step`]: children `i..` of a selector
/// tick from `x` to `x2` with aggregate result `r`, and `tr` is exactly
/// the concatenation of the ticked children's traces.
pub open spec fn sel_tr(
    x: Selector,
    x2: Selector,
    i: int,
    r: Status,
    d: usize,
    tr: Seq<(usize, String)>,
) -> bool {
    trace_walk(
        Tree::Selector(x),
        false,
        Tree::Selector(x2),
        x.tasks@,
        x2.tasks@,
        true,
        i,
        r,
        d,
        tr,
    )
}

/// The traced counterpart of [`seq_step`].
pub open spec fn seq_tr(
    x: Sequence,
    x2: Sequence,
    i: int,
    r: Status,
    d: usize,
    tr: Seq<(usize, String)>,
) -> bool {
    trace_walk(
        Tree::Sequence(x),
        false,
        Tree::Sequence(x2),
        x.tasks@,
        x2.tasks@,
        false,
        i,
        r,
        d,
        tr,
    )
}

/// Everything one tick does to the trace slot: an absent trace stays
/// absent and costs nothing; a present one keeps what it held and gains
/// exactly the entries [`steptr`] describes.
pub open spec fn tick_trace_ok(
    pre: Tree,
    post: Tree,
    r: Status,
    dbg0: Option<Vec<(usize, String)>>,
    dbg1: Option<Vec<(usize, String)>>,
    depth: usize,
) -> bool {
    &&& trace_extended(pre, dbg0, dbg1, depth)
    &&& match dbg0 {
        Option::None => true,
        Option::Some(v0) => dbg1 matches Option::Some(v1) && steptr(
            pre,
            post,
            r,
            depth,
            v1@.skip(v0@.len() as int),
        ),
    }
}

} // verus!
