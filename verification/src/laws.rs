//! The laws of the engine, proved from the transition relation alone.
//!
//! Each lemma holds of every transition [`step`] admits, so it holds of
//! every `tick` of the verified implementations.

use vstd::prelude::*;

verus! {

use crate::semantics::always_yields;
use crate::semantics::sel_tr;
use crate::semantics::seq_tr;
use crate::semantics::spec_next_depth;
use crate::semantics::steptr;
use crate::semantics::resets;
use crate::semantics::sel_step;
use crate::semantics::seq_step;
use crate::semantics::step;
use crate::semantics::unchanged_from;
use crate::status::Status;
use crate::tree::AlwaysFailure;
use crate::tree::AlwaysRunning;
use crate::tree::AlwaysSuccess;
use crate::tree::Once;
use crate::tree::Selector;
use crate::tree::Sequence;
use crate::tree::Tree;
use crate::tree::Wait;

/// `rs` is a possible run of `rs.len()` consecutive ticks carrying `pre`
/// to `post`, returning the statuses of `rs` in order.
pub open spec fn run(pre: Tree, post: Tree, rs: Seq<Status>) -> bool
    decreases rs.len(),
{
    if rs.len() == 0 {
        post == pre
    } else {
        exists|mid: Tree| #[trigger] step(pre, mid, rs[0]) && run(mid, post, rs.skip(1))
    }
}

/// An `AlwaysSuccess` leaf can only succeed.
pub proof fn lemma_always_success_yields(a: AlwaysSuccess)
    ensures
        always_yields(Tree::AlwaysSuccess(a), Status::Success),
{
}

/// An `AlwaysFailure` leaf can only fail.
pub proof fn lemma_always_failure_yields(a: AlwaysFailure)
    ensures
        always_yields(Tree::AlwaysFailure(a), Status::Failure),
{
}

/// An `AlwaysRunning` leaf can only report `Running`.
pub proof fn lemma_always_running_yields(a: AlwaysRunning)
    ensures
        always_yields(Tree::AlwaysRunning(a), Status::Running),
{
}

proof fn lemma_sel_locate(kids: Seq<Tree>, post: Seq<Tree>, r: Status, k: int, i: int)
    requires
        sel_step(kids, post, k, r),
        0 <= k <= i < kids.len(),
        forall|j: int| k <= j < i ==> always_yields(#[trigger] kids[j], Status::Failure),
        always_yields(kids[i], Status::Success),
    ensures
        r == Status::Success,
        forall|j: int| k <= j < i ==> #[trigger] step(kids[j], post[j], Status::Failure),
        step(kids[i], post[i], Status::Success),
        unchanged_from(kids, post, i + 1),
    decreases i - k,
{
    if k == i {
        if step(kids[k], post[k], Status::Running) && r == Status::Running && unchanged_from(
            kids,
            post,
            k + 1,
        ) {
            assert(false);
        }
        if step(kids[k], post[k], Status::Failure) && sel_step(kids, post, k + 1, r) {
            assert(false);
        }
    } else {
        if step(kids[k], post[k], Status::Success) && r == Status::Success && unchanged_from(
            kids,
            post,
            k + 1,
        ) {
            assert(false);
        }
        if step(kids[k], post[k], Status::Running) && r == Status::Running && unchanged_from(
            kids,
            post,
            k + 1,
        ) {
            assert(false);
        }
        lemma_sel_locate(kids, post, r, k + 1, i);
    }
}

/// Law (selector): if children before `i` can only fail and child `i` can
/// only succeed, every tick of the selector returns `Success`, ticks
/// exactly the children up to and including `i`, and leaves the children
/// past `i` untouched.
pub proof fn lemma_selector_first_success(x: Selector, post: Tree, r: Status, i: int)
    requires
        step(Tree::Selector(x), post, r),
        0 <= i < x.tasks@.len(),
        forall|j: int| 0 <= j < i ==> always_yields(#[trigger] x.tasks@[j], Status::Failure),
        always_yields(x.tasks@[i], Status::Success),
    ensures
        r == Status::Success,
        post is Selector,
        forall|j: int|
            0 <= j < i ==> #[trigger] step(
                x.tasks@[j],
                post->Selector_0.tasks@[j],
                Status::Failure,
            ),
        step(x.tasks@[i], post->Selector_0.tasks@[i], Status::Success),
        unchanged_from(x.tasks@, post->Selector_0.tasks@, i + 1),
{
    lemma_sel_locate(x.tasks@, post->Selector_0.tasks@, r, 0, i);
}

proof fn lemma_seq_locate(kids: Seq<Tree>, post: Seq<Tree>, r: Status, k: int, i: int)
    requires
        seq_step(kids, post, k, r),
        0 <= k <= i < kids.len(),
        forall|j: int| k <= j < i ==> always_yields(#[trigger] kids[j], Status::Success),
        always_yields(kids[i], Status::Failure),
    ensures
        r == Status::Failure,
        forall|j: int| k <= j < i ==> #[trigger] step(kids[j], post[j], Status::Success),
        step(kids[i], post[i], Status::Failure),
        unchanged_from(kids, post, i + 1),
    decreases i - k,
{
    if k == i {
        if step(kids[k], post[k], Status::Running) && r == Status::Running && unchanged_from(
            kids,
            post,
            k + 1,
        ) {
            assert(false);
        }
        if step(kids[k], post[k], Status::Success) && seq_step(kids, post, k + 1, r) {
            assert(false);
        }
    } else {
        if step(kids[k], post[k], Status::Failure) && r == Status::Failure && unchanged_from(
            kids,
            post,
            k + 1,
        ) {
            assert(false);
        }
        if step(kids[k], post[k], Status::Running) && r == Status::Running && unchanged_from(
            kids,
            post,
            k + 1,
        ) {
            assert(false);
        }
        lemma_seq_locate(kids, post, r, k + 1, i);
    }
}

/// Law (sequence): if children before `i` can only succeed and child `i`
/// can only fail, every tick of the sequence returns `Failure`, ticks
/// exactly the children up to and including `i`, and leaves the children
/// past `i` untouched.
pub proof fn lemma_sequence_first_failure(x: Sequence, post: Tree, r: Status, i: int)
    requires
        step(Tree::Sequence(x), post, r),
        0 <= i < x.tasks@.len(),
        forall|j: int| 0 <= j < i ==> always_yields(#[trigger] x.tasks@[j], Status::Success),
        always_yields(x.tasks@[i], Status::Failure),
    ensures
        r == Status::Failure,
        post is Sequence,
        forall|j: int|
            0 <= j < i ==> #[trigger] step(
                x.tasks@[j],
                post->Sequence_0.tasks@[j],
                Status::Success,
            ),
        step(x.tasks@[i], post->Sequence_0.tasks@[i], Status::Failure),
        unchanged_from(x.tasks@, post->Sequence_0.tasks@, i + 1),
{
    lemma_seq_locate(x.tasks@, post->Sequence_0.tasks@, r, 0, i);
}

/// Law: a selector over no children fails.
pub proof fn lemma_empty_selector(x: Selector, post: Tree, r: Status)
    requires
        step(Tree::Selector(x), post, r),
        x.tasks@.len() == 0,
    ensures
        r == Status::Failure,
{
    assert(sel_step(x.tasks@, post->Selector_0.tasks@, 0, r));
}

/// Law: a sequence over no children succeeds.
pub proof fn lemma_empty_sequence(x: Sequence, post: Tree, r: Status)
    requires
        step(Tree::Sequence(x), post, r),
        x.tasks@.len() == 0,
    ensures
        r == Status::Success,
{
    assert(seq_step(x.tasks@, post->Sequence_0.tasks@, 0, r));
}

/// Law: a `Once` holding a cached result returns it and changes nothing —
/// in particular, its child is never ticked again.
pub proof fn lemma_once_cached(o: Once, s: Status, post: Tree, r: Status)
    requires
        o.done == Some(s),
        step(Tree::Once(o), post, r),
    ensures
        r == s,
        post == Tree::Once(o),
{
}

/// Law: however many ticks follow, a `Once` holding a cached result keeps
/// returning it, tick after tick, and stays exactly as it is.
pub proof fn lemma_once_cached_run(o: Once, s: Status, post: Tree, rs: Seq<Status>)
    requires
        o.done == Some(s),
        run(Tree::Once(o), post, rs),
    ensures
        post == Tree::Once(o),
        forall|k: int| 0 <= k < rs.len() ==> rs[k] == s,
    decreases rs.len(),
{
    if rs.len() > 0 {
        let mid = choose|mid: Tree| step(Tree::Once(o), mid, rs[0]) && run(mid, post, rs.skip(1));
        lemma_once_cached(o, s, mid, rs[0]);
        lemma_once_cached_run(o, s, post, rs.skip(1));
        assert forall|k: int| 0 <= k < rs.len() implies rs[k] == s by {
            if k > 0 {
                assert(rs.skip(1)[k - 1] == s);
            }
        }
    }
}

/// Law: when an uncached `Once` wraps a child that can only fail, the
/// tick returns `Failure` and caches it, so the child is never consulted
/// again.
pub proof fn lemma_once_caches_failure(o: Once, post: Tree, r: Status)
    requires
        o.done is None,
        always_yields(*o.node, Status::Failure),
        step(Tree::Once(o), post, r),
    ensures
        r == Status::Failure,
        post is Once,
        post->Once_0.done == Some(Status::Failure),
        step(*o.node, *post->Once_0.node, Status::Failure),
{
    let o2 = post->Once_0;
    if step(*o.node, *o2.node, Status::Running) && o2.done is None && r == Status::Running {
        assert(false);
    }
    if step(*o.node, *o2.node, Status::Success) && o2.done == Some(Status::Success) && r
        == Status::Success {
        assert(false);
    }
}

/// Law: the first tick of a `Wait` returns `Running`, whatever span it
/// was configured with — zero included.
pub proof fn lemma_wait_first_tick(w: Wait, post: Tree, r: Status)
    requires
        w.start is None,
        step(Tree::Wait(w), post, r),
    ensures
        r == Status::Running,
        post is Wait,
        post->Wait_0.duration_ns == w.duration_ns,
        post->Wait_0.start is Some,
{
}

/// Law: a started `Wait` with zero span succeeds on every later tick; a
/// started `Wait` never fails and never changes. (For a longer span the
/// outcome follows the clock's reading; `crate::tick::wait_verdict` pins
/// how the tick decides on any given reading.)
pub proof fn lemma_wait_started(w: Wait, post: Tree, r: Status)
    requires
        w.start is Some,
        step(Tree::Wait(w), post, r),
    ensures
        post == Tree::Wait(w),
        r != Status::Failure,
        w.duration_ns == 0 ==> r == Status::Success,
{
}

/// Law: resetting a `Once` that holds a cached result clears the cache,
/// and the next tick steps the child again — the reset decorator returns
/// whatever status that renewed child tick yields.
pub proof fn lemma_once_reset_reinvokes(o: Once, mid: Tree, post: Tree, r: Status)
    requires
        o.done is Some,
        resets(Tree::Once(o), mid),
        step(mid, post, r),
    ensures
        mid is Once,
        mid->Once_0.done is None,
        resets(*o.node, *mid->Once_0.node),
        post is Once,
        step(*mid->Once_0.node, *post->Once_0.node, r),
{
    let m = mid->Once_0;
    let o2 = post->Once_0;
    if step(*m.node, *o2.node, Status::Running) && o2.done is None && r == Status::Running {
    } else if step(*m.node, *o2.node, Status::Success) && o2.done == Some(Status::Success) && r
        == Status::Success {
    } else {
        assert(step(*m.node, *o2.node, Status::Failure) && r == Status::Failure);
    }
}

/// Each traced child transition of a selector is a plain one.
proof fn lemma_sel_tr_kids(x: Selector, x2: Selector, i: int, r: Status, d: usize, tr: Seq<(usize, String)>)
    requires
        sel_tr(x, x2, i, r, d, tr),
    ensures
        sel_step(x.tasks@, x2.tasks@, i, r),
    decreases Tree::Selector(x), 0int, x.tasks@.len() - i,
{
    let kids = x.tasks@;
    let kids2 = x2.tasks@;
    if i < kids.len() {
        let t = Tree::Selector(x);
        assert(t->Selector_0 == x);
        assert(decreases_to!(t => t->Selector_0));
        assert(decreases_to!(x => x.tasks));
        assert(decreases_to!(x.tasks => x.tasks@));
        assert(decreases_to!(x.tasks@ => x.tasks@[i]));
        assert(decreases_to!(Tree::Selector(x), 0int, x.tasks@.len() - i => kids[i], 1int, 0int));
        if steptr(kids[i], kids2[i], Status::Success, d, tr) && r == Status::Success
            && unchanged_from(kids, kids2, i + 1) {
            lemma_steptr_refines_step(kids[i], kids2[i], Status::Success, d, tr);
        } else if steptr(kids[i], kids2[i], Status::Running, d, tr) && r == Status::Running
            && unchanged_from(kids, kids2, i + 1) {
            lemma_steptr_refines_step(kids[i], kids2[i], Status::Running, d, tr);
        } else {
            let n = choose|n: int|
                0 < n && n <= tr.len() && #[trigger] tr.subrange(0, n) == tr.subrange(0, n)
                    && steptr(kids[i], kids2[i], Status::Failure, d, tr.subrange(0, n)) && sel_tr(
                    x,
                    x2,
                    i + 1,
                    r,
                    d,
                    tr.subrange(n, tr.len() as int),
                );
            lemma_steptr_refines_step(kids[i], kids2[i], Status::Failure, d, tr.subrange(0, n));
            lemma_sel_tr_kids(x, x2, i + 1, r, d, tr.subrange(n, tr.len() as int));
        }
    }
}

/// Each traced child transition of a sequence is a plain one.
proof fn lemma_seq_tr_kids(x: Sequence, x2: Sequence, i: int, r: Status, d: usize, tr: Seq<(usize, String)>)
    requires
        seq_tr(x, x2, i, r, d, tr),
    ensures
        seq_step(x.tasks@, x2.tasks@, i, r),
    decreases Tree::Sequence(x), 0int, x.tasks@.len() - i,
{
    let kids = x.tasks@;
    let kids2 = x2.tasks@;
    if i < kids.len() {
        let t = Tree::Sequence(x);
        assert(t->Sequence_0 == x);
        assert(decreases_to!(t => t->Sequence_0));
        assert(decreases_to!(x => x.tasks));
        assert(decreases_to!(x.tasks => x.tasks@));
        assert(decreases_to!(x.tasks@ => x.tasks@[i]));
        assert(decreases_to!(Tree::Sequence(x), 0int, x.tasks@.len() - i => kids[i], 1int, 0int));
        if steptr(kids[i], kids2[i], Status::Failure, d, tr) && r == Status::Failure
            && unchanged_from(kids, kids2, i + 1) {
            lemma_steptr_refines_step(kids[i], kids2[i], Status::Failure, d, tr);
        } else if steptr(kids[i], kids2[i], Status::Running, d, tr) && r == Status::Running
            && unchanged_from(kids, kids2, i + 1) {
            lemma_steptr_refines_step(kids[i], kids2[i], Status::Running, d, tr);
        } else {
            let n = choose|n: int|
                0 < n && n <= tr.len() && #[trigger] tr.subrange(0, n) == tr.subrange(0, n)
                    && steptr(kids[i], kids2[i], Status::Success, d, tr.subrange(0, n)) && seq_tr(
                    x,
                    x2,
                    i + 1,
                    r,
                    d,
                    tr.subrange(n, tr.len() as int),
                );
            lemma_steptr_refines_step(kids[i], kids2[i], Status::Success, d, tr.subrange(0, n));
            lemma_seq_tr_kids(x, x2, i + 1, r, d, tr.subrange(n, tr.len() as int));
        }
    }
}

/// Law: the traced transition refines the plain one — whatever a tick
/// records in the trace, the status and state it reports are a legal
/// transition of the same tick.
pub proof fn lemma_steptr_refines_step(pre: Tree, post: Tree, r: Status, d: usize, tr: Seq<(usize, String)>)
    requires
        steptr(pre, post, r, d, tr),
    ensures
        step(pre, post, r),
    decreases pre, 1int, 0int,
{
    match pre {
        Tree::Once(o) => {
            if o.done is None {
                let o2 = post->Once_0;
                let d2 = spec_next_depth(d);
                if steptr(*o.node, *o2.node, Status::Running, d2, tr.skip(1)) && o2.done is None
                    && r == Status::Running {
                    lemma_steptr_refines_step(*o.node, *o2.node, Status::Running, d2, tr.skip(1));
                } else if steptr(*o.node, *o2.node, Status::Success, d2, tr.skip(1)) && o2.done
                    == Some(Status::Success) && r == Status::Success {
                    lemma_steptr_refines_step(*o.node, *o2.node, Status::Success, d2, tr.skip(1));
                } else {
                    lemma_steptr_refines_step(*o.node, *o2.node, Status::Failure, d2, tr.skip(1));
                }
            }
        },
        Tree::Selector(x) => {
            lemma_sel_tr_kids(x, post->Selector_0, 0, r, spec_next_depth(d), tr.skip(1));
        },
        Tree::Sequence(x) => {
            lemma_seq_tr_kids(x, post->Sequence_0, 0, r, spec_next_depth(d), tr.skip(1));
        },
        _ => {},
    }
}

} // verus!
