//! The tick, reset and label machinery, verified against the relations of
//! [`crate::semantics`].
//!
//! Ticking is written in ownership style: a node is taken by value and
//! handed back together with its status. The `Node` trait methods wrap
//! these functions for in-place use.

use vstd::prelude::*;

verus! {

use crate::clock::duration_as_nanos;
use crate::clock::instant_elapsed;
use crate::clock::instant_now;
use crate::semantics::cat;
use crate::semantics::label_ok;
use crate::semantics::reset_kids;
use crate::semantics::resets;
use crate::semantics::sel_step;
use crate::semantics::sel_tr;
use crate::semantics::seq_step;
use crate::semantics::seq_tr;
use crate::semantics::spec_next_depth;
use crate::semantics::step;
use crate::semantics::steptr;
use crate::semantics::tick_trace_ok;
use crate::semantics::trace_extended;
use crate::semantics::trace_pushed;
use crate::status::Status;
use crate::text::remaining_of;
use crate::text::wait_label;
use crate::text::wait_name_of;
use crate::tree::AlwaysFailure;
use crate::tree::AlwaysRunning;
use crate::tree::AlwaysSuccess;
use crate::tree::Once;
use crate::tree::Selector;
use crate::tree::Sequence;
use crate::tree::Tree;
use crate::tree::Wait;

/// The depth handed to children: one deeper, saturating at the top.
pub(crate) fn next_depth(depth: usize) -> (d: usize)
    ensures
        d == spec_next_depth(depth),
{
    if depth == usize::MAX {
        depth
    } else {
        depth + 1
    }
}

/// Appends one `(depth, label)` entry when a trace is wanted; does nothing
/// at all when it is not.
pub(crate) fn trace_push(debug: &mut Option<Vec<(usize, String)>>, depth: usize, label: String)
    ensures
        trace_pushed(*old(debug), *final(debug), depth, label@),
{
    let ghost d0 = *old(debug);
    match debug {
        Option::Some(v) => {
            v.push((depth, label));
            proof {
                let v0 = d0->Some_0;
                assert(v@.subrange(0, v0@.len() as int) =~= v0@);
            }
        },
        Option::None => {},
    }
}

/// A push of the node's own entry begins a valid trace extension.
pub(crate) proof fn lemma_push_starts(
    pre: Tree,
    dbg0: Option<Vec<(usize, String)>>,
    dbg1: Option<Vec<(usize, String)>>,
    depth: usize,
    label: Seq<char>,
)
    requires
        trace_pushed(dbg0, dbg1, depth, label),
        label_ok(pre, label),
    ensures
        trace_extended(pre, dbg0, dbg1, depth),
{
}

/// A child's trace extension at the next depth, appended to a node's own,
/// is still a valid trace extension for the node.
proof fn lemma_trace_chain(
    pre: Tree,
    child: Tree,
    dbg0: Option<Vec<(usize, String)>>,
    dbg1: Option<Vec<(usize, String)>>,
    dbg2: Option<Vec<(usize, String)>>,
    depth: usize,
    d2: usize,
)
    requires
        trace_extended(pre, dbg0, dbg1, depth),
        trace_extended(child, dbg1, dbg2, d2),
        d2 == spec_next_depth(depth),
    ensures
        trace_extended(pre, dbg0, dbg2, depth),
{
    if dbg0 is Some {
        let v0 = dbg0->Some_0;
        let v1 = dbg1->Some_0;
        let v2 = dbg2->Some_0;
        assert forall|k: int| 0 <= k < v1@.len() implies v2@[k] == v1@[k] by {
            assert(v2@.subrange(0, v1@.len() as int)[k] == v2@[k]);
        }
        assert(v2@.subrange(0, v0@.len() as int) =~= v0@);
        assert forall|k: int|
            v0@.len() < k < v2@.len() implies (#[trigger] v2@[k]).0 >= spec_next_depth(depth) by {
            if k < v1@.len() {
            } else if k == v1@.len() {
                assert(v2@[k].0 == d2);
            } else {
                assert(v2@[k].0 >= spec_next_depth(d2));
            }
        }
    }
}

/// A run of failing children in front of an established suffix transition
/// extends it to the whole child list.
proof fn lemma_sel_prefix(pre: Seq<Tree>, post: Seq<Tree>, k: int, r: Status)
    requires
        0 <= k <= pre.len(),
        post.len() == pre.len(),
        forall|j: int| 0 <= j < k ==> #[trigger] step(pre[j], post[j], Status::Failure),
        sel_step(pre, post, k, r),
    ensures
        sel_step(pre, post, 0, r),
    decreases k,
{
    if k > 0 {
        assert(sel_step(pre, post, k - 1, r)) by {
            assert(step(pre[k - 1], post[k - 1], Status::Failure));
            assert(sel_step(pre, post, (k - 1) + 1, r));
        }
        lemma_sel_prefix(pre, post, k - 1, r);
    }
}

/// A run of succeeding children in front of an established suffix
/// transition extends it to the whole child list.
proof fn lemma_seq_prefix(pre: Seq<Tree>, post: Seq<Tree>, k: int, r: Status)
    requires
        0 <= k <= pre.len(),
        post.len() == pre.len(),
        forall|j: int| 0 <= j < k ==> #[trigger] step(pre[j], post[j], Status::Success),
        seq_step(pre, post, k, r),
    ensures
        seq_step(pre, post, 0, r),
    decreases k,
{
    if k > 0 {
        assert(seq_step(pre, post, k - 1, r)) by {
            assert(step(pre[k - 1], post[k - 1], Status::Success));
            assert(seq_step(pre, post, (k - 1) + 1, r));
        }
        lemma_seq_prefix(pre, post, k - 1, r);
    }
}

/// Reset children one by one and the whole list is reset.
proof fn lemma_reset_kids(pre: Seq<Tree>, post: Seq<Tree>, k: int)
    requires
        post.len() == pre.len(),
        0 <= k <= pre.len(),
        forall|j: int| k <= j < pre.len() ==> resets(#[trigger] pre[j], post[j]),
    ensures
        reset_kids(pre, post, k),
    decreases pre.len() - k,
{
    if k < pre.len() {
        lemma_reset_kids(pre, post, k + 1);
    }
}

/// A node that appends exactly its own entry — a leaf, a started or
/// pristine `Wait`, a `Once` with a cached result — satisfies the traced
/// transition outright.
pub(crate) proof fn lemma_one_entry_trace(
    pre: Tree,
    post: Tree,
    r: Status,
    dbg0: Option<Vec<(usize, String)>>,
    dbg1: Option<Vec<(usize, String)>>,
    depth: usize,
    label: Seq<char>,
)
    requires
        trace_pushed(dbg0, dbg1, depth, label),
        label_ok(pre, label),
        step(pre, post, r),
        pre is AlwaysSuccess || pre is AlwaysFailure || pre is AlwaysRunning || pre is Wait || (pre
            is Once && pre->Once_0.done is Some),
    ensures
        tick_trace_ok(pre, post, r, dbg0, dbg1, depth),
{
    lemma_push_starts(pre, dbg0, dbg1, depth, label);
    if dbg0 is Some {
        let v0 = dbg0->Some_0;
        let v1 = dbg1->Some_0;
        let tr = v1@.skip(v0@.len() as int);
        assert(tr =~= seq![v1@[v0@.len() as int]]);
        assert(steptr(pre, post, r, depth, tr));
    }
}

/// Concatenating one more segment on the right.
proof fn lemma_cat_snoc(segs: Seq<Seq<(usize, String)>>, s: Seq<(usize, String)>)
    ensures
        cat(segs.push(s)) == cat(segs) + s,
    decreases segs.len(),
{
    if segs.len() == 0 {
        assert(segs.push(s).skip(1) =~= Seq::<Seq<(usize, String)>>::empty());
        assert(cat(segs.push(s).skip(1)) =~= Seq::<(usize, String)>::empty());
        assert(cat(segs.push(s)) == segs.push(s)[0] + cat(segs.push(s).skip(1)));
        assert(segs.push(s)[0] == s);
        assert(cat(segs) =~= Seq::<(usize, String)>::empty());
        assert(cat(segs.push(s)) =~= cat(segs) + s);
    } else {
        lemma_cat_snoc(segs.skip(1), s);
        assert(segs.push(s).skip(1) =~= segs.skip(1).push(s));
        assert(cat(segs.push(s)) == segs.push(s)[0] + cat(segs.push(s).skip(1)));
        assert(segs.push(s)[0] == segs[0]);
        assert(cat(segs.push(s).skip(1)) == cat(segs.skip(1).push(s)));
        assert(cat(segs.push(s)) == segs[0] + (cat(segs.skip(1)) + s));
        assert(cat(segs) == segs[0] + cat(segs.skip(1)));
        assert(cat(segs.push(s)) =~= cat(segs) + s);
    }
}

/// A run of failing children, each with its trace segment, in front of an
/// established traced suffix transition extends it to the whole list.
proof fn lemma_sel_tr_compose(
    x: Selector,
    x2: Selector,
    k: int,
    r: Status,
    d: usize,
    segs: Seq<Seq<(usize, String)>>,
    tail: Seq<(usize, String)>,
)
    requires
        x2.tasks@.len() == x.tasks@.len(),
        0 <= k,
        k + segs.len() <= x.tasks@.len(),
        forall|j: int|
            0 <= j < segs.len() ==> #[trigger] steptr(
                x.tasks@[k + j],
                x2.tasks@[k + j],
                Status::Failure,
                d,
                segs[j],
            ),
        sel_tr(x, x2, k + segs.len(), r, d, tail),
    ensures
        sel_tr(x, x2, k, r, d, cat(segs) + tail),
    decreases segs.len(),
{
    let pre = x.tasks@;
    let post = x2.tasks@;
    if segs.len() == 0 {
        assert(cat(segs) + tail =~= tail);
    } else {
        assert(steptr(pre[k + 0], post[k + 0], Status::Failure, d, segs[0]));
        assert(steptr(pre[k], post[k], Status::Failure, d, segs[0]));
        assert forall|j: int| 0 <= j < segs.skip(1).len() implies #[trigger] steptr(
            pre[k + 1 + j],
            post[k + 1 + j],
            Status::Failure,
            d,
            segs.skip(1)[j],
        ) by {
            assert(segs.skip(1)[j] == segs[j + 1]);
            assert(steptr(pre[k + (j + 1)], post[k + (j + 1)], Status::Failure, d, segs[j + 1]));
        }
        lemma_sel_tr_compose(x, x2, k + 1, r, d, segs.skip(1), tail);
        let tr = cat(segs) + tail;
        let n = segs[0].len() as int;
        assert(tr.subrange(0, n) =~= segs[0]);
        assert(tr.subrange(n, tr.len() as int) =~= cat(segs.skip(1)) + tail);
        assert(steptr(pre[k], post[k], Status::Failure, d, tr.subrange(0, n)));
        assert(sel_tr(x, x2, k + 1, r, d, tr.subrange(n, tr.len() as int)));
        assert(sel_tr(x, x2, k, r, d, tr)) by {
            assert(segs[0].len() >= 1);
            assert(tr.len() >= cat(segs).len() >= segs[0].len());
            assert(0 < n && n <= tr.len());
            assert(steptr(pre[k], post[k], Status::Failure, d, tr.subrange(0, n)));
            assert(sel_tr(x, x2, k + 1, r, d, tr.subrange(n, tr.len() as int)));
        }
    }
}

/// A run of succeeding children, each with its trace segment, in front of an
/// established traced suffix transition extends it to the whole list.
proof fn lemma_seq_tr_compose(
    x: Sequence,
    x2: Sequence,
    k: int,
    r: Status,
    d: usize,
    segs: Seq<Seq<(usize, String)>>,
    tail: Seq<(usize, String)>,
)
    requires
        x2.tasks@.len() == x.tasks@.len(),
        0 <= k,
        k + segs.len() <= x.tasks@.len(),
        forall|j: int|
            0 <= j < segs.len() ==> #[trigger] steptr(
                x.tasks@[k + j],
                x2.tasks@[k + j],
                Status::Success,
                d,
                segs[j],
            ),
        seq_tr(x, x2, k + segs.len(), r, d, tail),
    ensures
        seq_tr(x, x2, k, r, d, cat(segs) + tail),
    decreases segs.len(),
{
    let pre = x.tasks@;
    let post = x2.tasks@;
    if segs.len() == 0 {
        assert(cat(segs) + tail =~= tail);
    } else {
        assert(steptr(pre[k + 0], post[k + 0], Status::Success, d, segs[0]));
        assert(steptr(pre[k], post[k], Status::Success, d, segs[0]));
        assert forall|j: int| 0 <= j < segs.skip(1).len() implies #[trigger] steptr(
            pre[k + 1 + j],
            post[k + 1 + j],
            Status::Success,
            d,
            segs.skip(1)[j],
        ) by {
            assert(segs.skip(1)[j] == segs[j + 1]);
            assert(steptr(pre[k + (j + 1)], post[k + (j + 1)], Status::Success, d, segs[j + 1]));
        }
        lemma_seq_tr_compose(x, x2, k + 1, r, d, segs.skip(1), tail);
        let tr = cat(segs) + tail;
        let n = segs[0].len() as int;
        assert(tr.subrange(0, n) =~= segs[0]);
        assert(tr.subrange(n, tr.len() as int) =~= cat(segs.skip(1)) + tail);
        assert(steptr(pre[k], post[k], Status::Success, d, tr.subrange(0, n)));
        assert(seq_tr(x, x2, k + 1, r, d, tr.subrange(n, tr.len() as int)));
        assert(seq_tr(x, x2, k, r, d, tr)) by {
            assert(segs[0].len() >= 1);
            assert(tr.len() >= cat(segs).len() >= segs[0].len());
            assert(0 < n && n <= tr.len());
            assert(steptr(pre[k], post[k], Status::Success, d, tr.subrange(0, n)));
            assert(seq_tr(x, x2, k + 1, r, d, tr.subrange(n, tr.len() as int)));
        }
    }
}

/// The label of a `Once`: whether and how it has concluded.
pub(crate) fn once_report(o: &Once) -> (r: String)
    ensures
        label_ok(Tree::Once(*o), r@),
{
    match o.done {
        Option::None => "once".to_owned(),
        Option::Some(Status::Success) => "once cached Success".to_owned(),
        Option::Some(Status::Failure) => "once cached Failure".to_owned(),
        Option::Some(Status::Running) => "once cached Running".to_owned(),
    }
}

/// The verdict of a started wait, given the clock's reading: `Success`
/// once the elapsed time reaches the configured span, `Running` before.
pub fn wait_verdict(elapsed_ns: u128, duration_ns: u128) -> (r: Status)
    ensures
        r == (if elapsed_ns >= duration_ns {
            Status::Success
        } else {
            Status::Running
        }),
{
    if elapsed_ns >= duration_ns {
        Status::Success
    } else {
        Status::Running
    }
}

/// The whole milliseconds still to wait, given the clock's reading: the
/// configured span less the elapsed one, floored at zero.
pub fn remaining_ms(duration_ms: u128, elapsed_ms: u128) -> (r: u128)
    ensures
        r as nat == remaining_of(duration_ms as nat, elapsed_ms as nat),
{
    if duration_ms > elapsed_ms {
        duration_ms - elapsed_ms
    } else {
        0
    }
}

/// The label of a `Wait`: the configured span before the first tick, the
/// remaining span (floored at zero) once started.
pub(crate) fn wait_report(w: &Wait) -> (r: String)
    ensures
        label_ok(Tree::Wait(*w), r@),
{
    let ms = w.duration_ns / 1000000;
    match &w.start {
        Option::None => wait_name_of(ms),
        Option::Some(st) => {
            let elapsed_ms = duration_as_nanos(&instant_elapsed(st)) / 1000000;
            let rem = remaining_ms(ms, elapsed_ms);
            let out = wait_name_of(rem);
            proof {
                assert(out@ == wait_label(
                    remaining_of((w.duration_ns / 1000000) as nat, elapsed_ms as nat),
                ));
            }
            out
        },
    }
}

/// One tick of a whole tree.
pub fn tick_tree(t: Tree, depth: usize, debug: &mut Option<Vec<(usize, String)>>) -> (res: (
    Tree,
    Status,
))
    ensures
        step(t, res.0, res.1),
        tick_trace_ok(t, res.0, res.1, *old(debug), *final(debug), depth),
    decreases t, 0int,
{
    match t {
        Tree::Selector(x) => {
            let (x2, r) = tick_selector(x, depth, debug);
            (Tree::Selector(x2), r)
        },
        Tree::Sequence(x) => {
            let (x2, r) = tick_sequence(x, depth, debug);
            (Tree::Sequence(x2), r)
        },
        Tree::Once(o) => {
            let (o2, r) = tick_once(o, depth, debug);
            (Tree::Once(o2), r)
        },
        Tree::Wait(w) => {
            let (w2, r) = tick_wait(w, depth, debug);
            (Tree::Wait(w2), r)
        },
        Tree::AlwaysSuccess(a) => {
            let ghost d0 = *debug;
            trace_push(debug, depth, "always-success".to_owned());
            proof {
                assert(step(Tree::AlwaysSuccess(a), Tree::AlwaysSuccess(a), Status::Success));
                lemma_one_entry_trace(
                    Tree::AlwaysSuccess(a),
                    Tree::AlwaysSuccess(a),
                    Status::Success,
                    d0,
                    *debug,
                    depth,
                    "always-success"@,
                );
            }
            (Tree::AlwaysSuccess(a), Status::Success)
        },
        Tree::AlwaysFailure(a) => {
            let ghost d0 = *debug;
            trace_push(debug, depth, "always-failure".to_owned());
            proof {
                assert(step(Tree::AlwaysFailure(a), Tree::AlwaysFailure(a), Status::Failure));
                lemma_one_entry_trace(
                    Tree::AlwaysFailure(a),
                    Tree::AlwaysFailure(a),
                    Status::Failure,
                    d0,
                    *debug,
                    depth,
                    "always-failure"@,
                );
            }
            (Tree::AlwaysFailure(a), Status::Failure)
        },
        Tree::AlwaysRunning(a) => {
            let ghost d0 = *debug;
            trace_push(debug, depth, "always-running".to_owned());
            proof {
                assert(step(Tree::AlwaysRunning(a), Tree::AlwaysRunning(a), Status::Running));
                lemma_one_entry_trace(
                    Tree::AlwaysRunning(a),
                    Tree::AlwaysRunning(a),
                    Status::Running,
                    d0,
                    *debug,
                    depth,
                    "always-running"@,
                );
            }
            (Tree::AlwaysRunning(a), Status::Running)
        },
    }
}

/// One tick of a selector: children are tried in order until one does not
/// fail; its status is the selector's, and later children are untouched.
#[verifier::loop_isolation(false)]
pub(crate) fn tick_selector(
    x: Selector,
    depth: usize,
    debug: &mut Option<Vec<(usize, String)>>,
) -> (res: (Selector, Status))
    ensures
        res.0.name == x.name,
        res.0.tasks@.len() == x.tasks@.len(),
        sel_step(x.tasks@, res.0.tasks@, 0, res.1),
        tick_trace_ok(
            Tree::Selector(x),
            Tree::Selector(res.0),
            res.1,
            *old(debug),
            *final(debug),
            depth,
        ),
    decreases x, 1int,
{
    let ghost dbg0 = *debug;
    let ghost pre_kids = x.tasks@;
    let Selector { name, tasks } = x;
    let label = name.clone();
    trace_push(debug, depth, label);
    proof {
        lemma_push_starts(Tree::Selector(x), dbg0, *debug, depth, x.name@);
    }
    let ghost mut segs: Seq<Seq<(usize, String)>> = Seq::empty();
    proof {
        if dbg0 is Some {
            let v0 = dbg0->Some_0;
            let v1 = (*debug)->Some_0;
            assert(v1@.skip(v0@.len() as int + 1) =~= cat(segs));
        }
    }
    let d2 = next_depth(depth);
    let mut rest = tasks;
    let mut out: Vec<Tree> = Vec::new();
    let mut verdict = Status::Failure;
    let mut decided = false;
    while !decided && rest.len() > 0
        invariant
            out@.len() + rest@.len() == pre_kids.len(),
            forall|j: int|
                0 <= j < rest@.len() ==> (#[trigger] rest@[j]) == pre_kids[out@.len() + j],
            !decided ==> verdict == Status::Failure,
            !decided ==> forall|j: int|
                0 <= j < out@.len() ==> #[trigger] step(pre_kids[j], out@[j], Status::Failure),
            decided ==> {
                &&& out@.len() >= 1
                &&& (verdict == Status::Success || verdict == Status::Running)
                &&& forall|j: int|
                    0 <= j < out@.len() - 1 ==> #[trigger] step(
                        pre_kids[j],
                        out@[j],
                        Status::Failure,
                    )
                &&& step(pre_kids[out@.len() - 1], out@[out@.len() - 1], verdict)
            },
            trace_extended(Tree::Selector(x), dbg0, *debug, depth),
            d2 == spec_next_depth(depth),
            segs.len() == out@.len(),
            dbg0 matches Option::Some(v0) ==> (*debug) matches Option::Some(v1) && v1@.len()
                >= v0@.len() + 1 && v1@.skip(v0@.len() as int + 1) == cat(segs),
            dbg0 is Some && !decided ==> forall|j: int|
                0 <= j < segs.len() ==> #[trigger] steptr(
                    pre_kids[j],
                    out@[j],
                    Status::Failure,
                    d2,
                    segs[j],
                ),
            dbg0 is Some && decided ==> (forall|j: int|
                0 <= j < segs.len() - 1 ==> #[trigger] steptr(
                    pre_kids[j],
                    out@[j],
                    Status::Failure,
                    d2,
                    segs[j],
                )) && steptr(
                pre_kids[segs.len() - 1],
                out@[segs.len() - 1],
                verdict,
                d2,
                segs[segs.len() - 1],
            ),
        decreases rest@.len(),
    {
        let child = rest.remove(0);
        proof {
            assert(child == pre_kids[out@.len() as int]);
            assert(decreases_to!(x => x.tasks));
            assert(decreases_to!(x.tasks => x.tasks@));
            assert(decreases_to!(x.tasks@ => x.tasks@[out@.len() as int]));
            assert(decreases_to!(x, 1int => child, 0int));
        }
        let ghost cpre = child;
        let ghost dbg_mid = *debug;
        let (child2, cr) = tick_tree(child, d2, debug);
        proof {
            lemma_trace_chain(Tree::Selector(x), cpre, dbg0, dbg_mid, *debug, depth, d2);
            if dbg0 is Some {
                let v0 = dbg0->Some_0;
                let vmid = dbg_mid->Some_0;
                let vnew = (*debug)->Some_0;
                let seg = vnew@.skip(vmid@.len() as int);
                assert(vnew@.subrange(0, vmid@.len() as int) == vmid@);
                lemma_cat_snoc(segs, seg);
                segs = segs.push(seg);
                assert(vnew@.skip(v0@.len() as int + 1) =~= vmid@.skip(v0@.len() as int + 1) + seg);
            } else {
                segs = segs.push(Seq::empty());
            }
        }
        out.push(child2);
        match cr {
            Status::Success => {
                verdict = Status::Success;
                decided = true;
            },
            Status::Running => {
                verdict = Status::Running;
                decided = true;
            },
            Status::Failure => {},
        }
    }
    let ghost done_kids = out@;
    let ghost tail_kids = rest@;
    let mut result = out;
    result.append(&mut rest);
    proof {
        assert(result@ == done_kids + tail_kids);
        assert(forall|j: int| 0 <= j < done_kids.len() ==> (#[trigger] result@[j]) == done_kids[j]);
        assert(forall|j: int|
            done_kids.len() <= j < result@.len() ==> (#[trigger] result@[j]) == tail_kids[
                j - done_kids.len()
            ]);
        if !decided {
            assert(sel_step(pre_kids, result@, pre_kids.len() as int, Status::Failure));
            lemma_sel_prefix(pre_kids, result@, pre_kids.len() as int, Status::Failure);
        } else {
            let m = done_kids.len() - 1;
            assert(sel_step(pre_kids, result@, m, verdict)) by {
                assert(step(pre_kids[m], result@[m], verdict));
                assert(sel_step(pre_kids, result@, m + 1, verdict) || verdict != Status::Failure);
            }
            lemma_sel_prefix(pre_kids, result@, m, verdict);
        }
        if dbg0 is Some {
            let v0 = dbg0->Some_0;
            let vfin = (*debug)->Some_0;
            let tr_all = vfin@.skip(v0@.len() as int);
            let x2 = (Selector { name: name, tasks: result });
            assert(tr_all.skip(1) =~= vfin@.skip(v0@.len() as int + 1));
            if !decided {
                assert(sel_tr(x, x2, pre_kids.len() as int, Status::Failure, d2, Seq::empty()));
                assert forall|j: int| 0 <= j < segs.len() implies #[trigger] steptr(
                    pre_kids[0 + j],
                    x2.tasks@[0 + j],
                    Status::Failure,
                    d2,
                    segs[j],
                ) by {
                    assert(steptr(pre_kids[j], done_kids[j], Status::Failure, d2, segs[j]));
                }
                lemma_sel_tr_compose(x, x2, 0, Status::Failure, d2, segs, Seq::empty());
                assert(cat(segs) + Seq::<(usize, String)>::empty() =~= cat(segs));
                assert(sel_tr(x, x2, 0, Status::Failure, d2, tr_all.skip(1)));
            } else {
                let m = segs.len() - 1;
                assert(steptr(pre_kids[m], x2.tasks@[m], verdict, d2, segs[m]));
                assert(sel_tr(x, x2, m, verdict, d2, segs[m]));
                assert(segs =~= segs.take(m).push(segs[m]));
                lemma_cat_snoc(segs.take(m), segs[m]);
                assert forall|j: int| 0 <= j < segs.take(m).len() implies #[trigger] steptr(
                    pre_kids[0 + j],
                    x2.tasks@[0 + j],
                    Status::Failure,
                    d2,
                    segs.take(m)[j],
                ) by {
                    assert(segs.take(m)[j] == segs[j]);
                    assert(steptr(pre_kids[j], done_kids[j], Status::Failure, d2, segs[j]));
                }
                lemma_sel_tr_compose(x, x2, 0, verdict, d2, segs.take(m), segs[m]);
                assert(cat(segs.take(m)) + segs[m] == cat(segs));
                assert(sel_tr(x, x2, 0, verdict, d2, tr_all.skip(1)));
            }
            assert(steptr(Tree::Selector(x), Tree::Selector(x2), verdict, depth, tr_all));
        }
    }
    (Selector { name, tasks: result }, verdict)
}

/// One tick of a sequence: children are run in order until one does not
/// succeed; its status is the sequence's, and later children are
/// untouched.
#[verifier::loop_isolation(false)]
pub(crate) fn tick_sequence(
    x: Sequence,
    depth: usize,
    debug: &mut Option<Vec<(usize, String)>>,
) -> (res: (Sequence, Status))
    ensures
        res.0.name == x.name,
        res.0.tasks@.len() == x.tasks@.len(),
        seq_step(x.tasks@, res.0.tasks@, 0, res.1),
        tick_trace_ok(
            Tree::Sequence(x),
            Tree::Sequence(res.0),
            res.1,
            *old(debug),
            *final(debug),
            depth,
        ),
    decreases x, 1int,
{
    let ghost dbg0 = *debug;
    let ghost pre_kids = x.tasks@;
    let Sequence { name, tasks } = x;
    let label = name.clone();
    trace_push(debug, depth, label);
    proof {
        lemma_push_starts(Tree::Sequence(x), dbg0, *debug, depth, x.name@);
    }
    let ghost mut segs: Seq<Seq<(usize, String)>> = Seq::empty();
    proof {
        if dbg0 is Some {
            let v0 = dbg0->Some_0;
            let v1 = (*debug)->Some_0;
            assert(v1@.skip(v0@.len() as int + 1) =~= cat(segs));
        }
    }
    let d2 = next_depth(depth);
    let mut rest = tasks;
    let mut out: Vec<Tree> = Vec::new();
    let mut verdict = Status::Success;
    let mut decided = false;
    while !decided && rest.len() > 0
        invariant
            out@.len() + rest@.len() == pre_kids.len(),
            forall|j: int|
                0 <= j < rest@.len() ==> (#[trigger] rest@[j]) == pre_kids[out@.len() + j],
            !decided ==> verdict == Status::Success,
            !decided ==> forall|j: int|
                0 <= j < out@.len() ==> #[trigger] step(pre_kids[j], out@[j], Status::Success),
            decided ==> {
                &&& out@.len() >= 1
                &&& (verdict == Status::Failure || verdict == Status::Running)
                &&& forall|j: int|
                    0 <= j < out@.len() - 1 ==> #[trigger] step(
                        pre_kids[j],
                        out@[j],
                        Status::Success,
                    )
                &&& step(pre_kids[out@.len() - 1], out@[out@.len() - 1], verdict)
            },
            trace_extended(Tree::Sequence(x), dbg0, *debug, depth),
            d2 == spec_next_depth(depth),
            segs.len() == out@.len(),
            dbg0 matches Option::Some(v0) ==> (*debug) matches Option::Some(v1) && v1@.len()
                >= v0@.len() + 1 && v1@.skip(v0@.len() as int + 1) == cat(segs),
            dbg0 is Some && !decided ==> forall|j: int|
                0 <= j < segs.len() ==> #[trigger] steptr(
                    pre_kids[j],
                    out@[j],
                    Status::Success,
                    d2,
                    segs[j],
                ),
            dbg0 is Some && decided ==> (forall|j: int|
                0 <= j < segs.len() - 1 ==> #[trigger] steptr(
                    pre_kids[j],
                    out@[j],
                    Status::Success,
                    d2,
                    segs[j],
                )) && steptr(
                pre_kids[segs.len() - 1],
                out@[segs.len() - 1],
                verdict,
                d2,
                segs[segs.len() - 1],
            ),
        decreases rest@.len(),
    {
        let child = rest.remove(0);
        proof {
            assert(child == pre_kids[out@.len() as int]);
            assert(decreases_to!(x => x.tasks));
            assert(decreases_to!(x.tasks => x.tasks@));
            assert(decreases_to!(x.tasks@ => x.tasks@[out@.len() as int]));
            assert(decreases_to!(x, 1int => child, 0int));
        }
        let ghost cpre = child;
        let ghost dbg_mid = *debug;
        let (child2, cr) = tick_tree(child, d2, debug);
        proof {
            lemma_trace_chain(Tree::Sequence(x), cpre, dbg0, dbg_mid, *debug, depth, d2);
            if dbg0 is Some {
                let v0 = dbg0->Some_0;
                let vmid = dbg_mid->Some_0;
                let vnew = (*debug)->Some_0;
                let seg = vnew@.skip(vmid@.len() as int);
                assert(vnew@.subrange(0, vmid@.len() as int) == vmid@);
                lemma_cat_snoc(segs, seg);
                segs = segs.push(seg);
                assert(vnew@.skip(v0@.len() as int + 1) =~= vmid@.skip(v0@.len() as int + 1) + seg);
            } else {
                segs = segs.push(Seq::empty());
            }
        }
        out.push(child2);
        match cr {
            Status::Failure => {
                verdict = Status::Failure;
                decided = true;
            },
            Status::Running => {
                verdict = Status::Running;
                decided = true;
            },
            Status::Success => {},
        }
    }
    let ghost done_kids = out@;
    let ghost tail_kids = rest@;
    let mut result = out;
    result.append(&mut rest);
    proof {
        assert(result@ == done_kids + tail_kids);
        assert(forall|j: int| 0 <= j < done_kids.len() ==> (#[trigger] result@[j]) == done_kids[j]);
        assert(forall|j: int|
            done_kids.len() <= j < result@.len() ==> (#[trigger] result@[j]) == tail_kids[
                j - done_kids.len()
            ]);
        if !decided {
            assert(seq_step(pre_kids, result@, pre_kids.len() as int, Status::Success));
            lemma_seq_prefix(pre_kids, result@, pre_kids.len() as int, Status::Success);
        } else {
            let m = done_kids.len() - 1;
            assert(seq_step(pre_kids, result@, m, verdict)) by {
                assert(step(pre_kids[m], result@[m], verdict));
                assert(seq_step(pre_kids, result@, m + 1, verdict) || verdict != Status::Success);
            }
            lemma_seq_prefix(pre_kids, result@, m, verdict);
        }
        if dbg0 is Some {
            let v0 = dbg0->Some_0;
            let vfin = (*debug)->Some_0;
            let tr_all = vfin@.skip(v0@.len() as int);
            let x2 = (Sequence { name: name, tasks: result });
            assert(tr_all.skip(1) =~= vfin@.skip(v0@.len() as int + 1));
            if !decided {
                assert(seq_tr(x, x2, pre_kids.len() as int, Status::Success, d2, Seq::empty()));
                assert forall|j: int| 0 <= j < segs.len() implies #[trigger] steptr(
                    pre_kids[0 + j],
                    x2.tasks@[0 + j],
                    Status::Success,
                    d2,
                    segs[j],
                ) by {
                    assert(steptr(pre_kids[j], done_kids[j], Status::Success, d2, segs[j]));
                }
                lemma_seq_tr_compose(x, x2, 0, Status::Success, d2, segs, Seq::empty());
                assert(cat(segs) + Seq::<(usize, String)>::empty() =~= cat(segs));
                assert(seq_tr(x, x2, 0, Status::Success, d2, tr_all.skip(1)));
            } else {
                let m = segs.len() - 1;
                assert(steptr(pre_kids[m], x2.tasks@[m], verdict, d2, segs[m]));
                assert(seq_tr(x, x2, m, verdict, d2, segs[m]));
                assert(segs =~= segs.take(m).push(segs[m]));
                lemma_cat_snoc(segs.take(m), segs[m]);
                assert forall|j: int| 0 <= j < segs.take(m).len() implies #[trigger] steptr(
                    pre_kids[0 + j],
                    x2.tasks@[0 + j],
                    Status::Success,
                    d2,
                    segs.take(m)[j],
                ) by {
                    assert(segs.take(m)[j] == segs[j]);
                    assert(steptr(pre_kids[j], done_kids[j], Status::Success, d2, segs[j]));
                }
                lemma_seq_tr_compose(x, x2, 0, verdict, d2, segs.take(m), segs[m]);
                assert(cat(segs.take(m)) + segs[m] == cat(segs));
                assert(seq_tr(x, x2, 0, verdict, d2, tr_all.skip(1)));
            }
            assert(steptr(Tree::Sequence(x), Tree::Sequence(x2), verdict, depth, tr_all));
        }
    }
    (Sequence { name, tasks: result }, verdict)
}

/// One tick of a `Once`: the cached result if there is one, otherwise the
/// child's result, cached when terminal.
pub(crate) fn tick_once(o: Once, depth: usize, debug: &mut Option<Vec<(usize, String)>>) -> (res: (
    Once,
    Status,
))
    ensures
        step(Tree::Once(o), Tree::Once(res.0), res.1),
        tick_trace_ok(Tree::Once(o), Tree::Once(res.0), res.1, *old(debug), *final(debug), depth),
    decreases o, 1int,
{
    let ghost dbg0 = *debug;
    let label = once_report(&o);
    trace_push(debug, depth, label);
    proof {
        lemma_push_starts(Tree::Once(o), dbg0, *debug, depth, label@);
    }
    match o.done {
        Option::Some(st) => {
            proof {
                assert(o.done == Some(st));
                assert(step(Tree::Once(o), Tree::Once(o), st));
                lemma_one_entry_trace(Tree::Once(o), Tree::Once(o), st, dbg0, *debug, depth, label@);
            }
            (o, st)
        },
        Option::None => {
            let ghost opre = o;
            let Once { done: _, node } = o;
            let child: Tree = *node;
            proof {
                assert(child == *opre.node);
                assert(decreases_to!(o, 1int => child, 0int));
            }
            let ghost dbg_mid = *debug;
            let d2 = next_depth(depth);
            let (child2, cr) = tick_tree(child, d2, debug);
            proof {
                lemma_trace_chain(Tree::Once(opre), child, dbg0, dbg_mid, *debug, depth, d2);
            }
            let newdone: Option<Status> = match cr {
                Status::Running => Option::None,
                Status::Success => Option::Some(Status::Success),
                Status::Failure => Option::Some(Status::Failure),
            };
            let res0 = Once { done: newdone, node: Box::new(child2) };
            proof {
                if dbg0 is Some {
                    let v0 = dbg0->Some_0;
                    let vmid = dbg_mid->Some_0;
                    let vfin = (*debug)->Some_0;
                    let tr_all = vfin@.skip(v0@.len() as int);
                    assert(tr_all.skip(1) =~= vfin@.skip(vmid@.len() as int));
                    assert(steptr(child, child2, cr, d2, vfin@.skip(vmid@.len() as int)));
                    assert(steptr(Tree::Once(o), Tree::Once(res0), cr, depth, tr_all));
                }
            }
            (res0, cr)
        },
    }
}

/// One tick of a `Wait`: the first tick starts the clock and reports
/// `Running`; later ticks report `Success` once the elapsed time reaches
/// the configured span.
pub(crate) fn tick_wait(w: Wait, depth: usize, debug: &mut Option<Vec<(usize, String)>>) -> (res: (
    Wait,
    Status,
))
    ensures
        step(Tree::Wait(w), Tree::Wait(res.0), res.1),
        tick_trace_ok(Tree::Wait(w), Tree::Wait(res.0), res.1, *old(debug), *final(debug), depth),
{
    let ghost dbg0 = *debug;
    let label = wait_report(&w);
    trace_push(debug, depth, label);
    let Wait { duration_ns, start } = w;
    let (w2, r): (Wait, Status) = match start {
        Option::None => (Wait { duration_ns, start: Option::Some(instant_now()) }, Status::Running),
        Option::Some(st) => {
            let elapsed_ns = duration_as_nanos(&instant_elapsed(&st));
            let verdict = wait_verdict(elapsed_ns, duration_ns);
            (Wait { duration_ns, start: Option::Some(st) }, verdict)
        },
    };
    proof {
        assert(w2 == w || w.start is None);
        assert(step(Tree::Wait(w), Tree::Wait(w2), r));
        lemma_one_entry_trace(Tree::Wait(w), Tree::Wait(w2), r, dbg0, *debug, depth, label@);
    }
    (w2, r)
}

/// Resets a whole tree to its pre-first-tick condition.
pub fn reset_tree(t: Tree) -> (res: Tree)
    ensures
        resets(t, res),
    decreases t, 0int,
{
    match t {
        Tree::Selector(x) => Tree::Selector(reset_selector(x)),
        Tree::Sequence(x) => Tree::Sequence(reset_sequence(x)),
        Tree::Once(o) => {
            let ghost opre = o;
            let Once { done: _, node } = o;
            let child: Tree = *node;
            proof {
                assert(child == *opre.node);
                assert(decreases_to!(t, 0int => child, 0int));
            }
            let child2 = reset_tree(child);
            Tree::Once(Once { done: Option::None, node: Box::new(child2) })
        },
        Tree::Wait(w) => Tree::Wait(Wait { duration_ns: w.duration_ns, start: Option::None }),
        Tree::AlwaysSuccess(a) => Tree::AlwaysSuccess(a),
        Tree::AlwaysFailure(a) => Tree::AlwaysFailure(a),
        Tree::AlwaysRunning(a) => Tree::AlwaysRunning(a),
    }
}

/// Resets every child of a selector.
#[verifier::loop_isolation(false)]
pub(crate) fn reset_selector(x: Selector) -> (res: Selector)
    ensures
        res.name == x.name,
        reset_kids(x.tasks@, res.tasks@, 0),
    decreases x, 1int,
{
    let ghost pre_kids = x.tasks@;
    let Selector { name, tasks } = x;
    let mut rest = tasks;
    let mut out: Vec<Tree> = Vec::new();
    while rest.len() > 0
        invariant
            out@.len() + rest@.len() == pre_kids.len(),
            forall|j: int|
                0 <= j < rest@.len() ==> (#[trigger] rest@[j]) == pre_kids[out@.len() + j],
            forall|j: int| 0 <= j < out@.len() ==> resets(pre_kids[j], #[trigger] out@[j]),
        decreases rest@.len(),
    {
        let child = rest.remove(0);
        proof {
            assert(child == pre_kids[out@.len() as int]);
            assert(decreases_to!(x => x.tasks));
            assert(decreases_to!(x.tasks => x.tasks@));
            assert(decreases_to!(x.tasks@ => x.tasks@[out@.len() as int]));
            assert(decreases_to!(x, 1int => child, 0int));
        }
        let child2 = reset_tree(child);
        out.push(child2);
    }
    proof {
        lemma_reset_kids(pre_kids, out@, 0);
    }
    Selector { name, tasks: out }
}

/// Resets every child of a sequence.
#[verifier::loop_isolation(false)]
pub(crate) fn reset_sequence(x: Sequence) -> (res: Sequence)
    ensures
        res.name == x.name,
        reset_kids(x.tasks@, res.tasks@, 0),
    decreases x, 1int,
{
    let ghost pre_kids = x.tasks@;
    let Sequence { name, tasks } = x;
    let mut rest = tasks;
    let mut out: Vec<Tree> = Vec::new();
    while rest.len() > 0
        invariant
            out@.len() + rest@.len() == pre_kids.len(),
            forall|j: int|
                0 <= j < rest@.len() ==> (#[trigger] rest@[j]) == pre_kids[out@.len() + j],
            forall|j: int| 0 <= j < out@.len() ==> resets(pre_kids[j], #[trigger] out@[j]),
        decreases rest@.len(),
    {
        let child = rest.remove(0);
        proof {
            assert(child == pre_kids[out@.len() as int]);
            assert(decreases_to!(x => x.tasks));
            assert(decreases_to!(x.tasks => x.tasks@));
            assert(decreases_to!(x.tasks@ => x.tasks@[out@.len() as int]));
            assert(decreases_to!(x, 1int => child, 0int));
        }
        let child2 = reset_tree(child);
        out.push(child2);
    }
    proof {
        lemma_reset_kids(pre_kids, out@, 0);
    }
    Sequence { name, tasks: out }
}

} // verus!
