use behavior_tree::AlwaysFailure;
use behavior_tree::AlwaysRunning;
use behavior_tree::AlwaysSuccess;
use behavior_tree::Node;
use behavior_tree::Once;
use behavior_tree::Selector;
use behavior_tree::Sequence;
use behavior_tree::Status;
use behavior_tree::tick::remaining_ms;
use behavior_tree::tick::wait_verdict;
use behavior_tree::Tree;
use behavior_tree::Wait;

// One hour in nanoseconds: a span no test will ever sit out.
const HOUR_NS: u128 = 3_600_000_000_000;

fn entry(depth: usize, label: &str) -> (usize, String) {
    (depth, label.to_string())
}

#[test]
fn selector_stops_at_first_success() {
    let kids = vec![
        Tree::AlwaysFailure(AlwaysFailure),
        Tree::AlwaysSuccess(AlwaysSuccess),
        Tree::AlwaysRunning(AlwaysRunning),
    ];
    let mut root = Selector::new("root".into(), kids);
    let mut trace = Some(Vec::new());
    let status = root.tick(0, &mut trace);
    assert_eq!(status, Status::Success);
    let entries = trace.unwrap();
    assert_eq!(
        entries,
        vec![
            entry(0, "root"),
            entry(1, "always-failure"),
            entry(1, "always-success"),
        ]
    );
}

#[test]
fn selector_stops_at_first_running() {
    let kids = vec![
        Tree::AlwaysFailure(AlwaysFailure),
        Tree::AlwaysRunning(AlwaysRunning),
        Tree::AlwaysSuccess(AlwaysSuccess),
    ];
    let mut root = Selector::new("root".into(), kids);
    let mut trace = Some(Vec::new());
    let status = root.tick(0, &mut trace);
    assert_eq!(status, Status::Running);
    let entries = trace.unwrap();
    assert_eq!(
        entries,
        vec![
            entry(0, "root"),
            entry(1, "always-failure"),
            entry(1, "always-running"),
        ]
    );
}

#[test]
fn sequence_stops_at_first_failure() {
    let kids = vec![
        Tree::AlwaysSuccess(AlwaysSuccess),
        Tree::AlwaysFailure(AlwaysFailure),
        Tree::AlwaysSuccess(AlwaysSuccess),
    ];
    let mut root = Sequence::new("root".into(), kids);
    let mut trace = Some(Vec::new());
    let status = root.tick(0, &mut trace);
    assert_eq!(status, Status::Failure);
    let entries = trace.unwrap();
    assert_eq!(
        entries,
        vec![
            entry(0, "root"),
            entry(1, "always-success"),
            entry(1, "always-failure"),
        ]
    );
}

#[test]
fn empty_selector_fails_empty_sequence_succeeds() {
    let mut sel = Selector::new("sel".into(), Vec::new());
    let mut seq = Sequence::new("seq".into(), Vec::new());
    assert_eq!(sel.tick(0, &mut None), Status::Failure);
    assert_eq!(seq.tick(0, &mut None), Status::Success);
}

#[test]
fn once_caches_failure_and_stops_invoking_child() {
    let mut once = Once::new(Box::new(Tree::AlwaysFailure(AlwaysFailure)));
    assert_eq!(once.name(), "once");
    let mut trace = Some(Vec::new());
    assert_eq!(once.tick(0, &mut trace), Status::Failure);
    assert_eq!(
        trace.clone().unwrap(),
        vec![entry(0, "once"), entry(1, "always-failure")]
    );
    assert_eq!(once.name(), "once cached Failure");
    // Five more ticks: the child appends no further entries, so it was
    // invoked exactly once in all.
    for _ in 0..5 {
        assert_eq!(once.tick(0, &mut trace), Status::Failure);
    }
    let entries = trace.unwrap();
    assert_eq!(entries.len(), 2 + 5);
    for e in entries.iter().skip(2) {
        assert_eq!(e, &entry(0, "once cached Failure"));
    }
}

#[test]
fn once_reset_reinvokes_child_once() {
    let mut once = Once::new(Box::new(Tree::AlwaysSuccess(AlwaysSuccess)));
    assert_eq!(once.tick(0, &mut None), Status::Success);
    assert_eq!(once.name(), "once cached Success");
    once.reset();
    assert_eq!(once.name(), "once");
    let mut trace = Some(Vec::new());
    assert_eq!(once.tick(0, &mut trace), Status::Success);
    // The renewed tick reaches the child exactly once more.
    assert_eq!(
        trace.unwrap(),
        vec![entry(0, "once"), entry(1, "always-success")]
    );
    assert_eq!(once.name(), "once cached Success");
}

#[test]
fn wait_zero_runs_first_then_succeeds() {
    let mut w = Wait::from_nanos(0);
    assert_eq!(w.name(), "wait 0");
    // The first tick is Running even for a zero span: the latch is fixed.
    assert_eq!(w.tick(0, &mut None), Status::Running);
    assert_eq!(w.tick(0, &mut None), Status::Success);
    assert_eq!(w.tick(0, &mut None), Status::Success);
}

#[test]
fn wait_long_keeps_running() {
    let mut w = Wait::from_nanos(HOUR_NS);
    assert_eq!(w.name(), "wait 3600000");
    assert_eq!(w.tick(0, &mut None), Status::Running);
    assert_eq!(w.tick(0, &mut None), Status::Running);
}

#[test]
fn wait_from_duration_starts_pristine() {
    let mut w = Wait::new(std::time::Duration::from_millis(7));
    assert_eq!(w.name(), "wait 7");
    assert_eq!(w.tick(0, &mut None), Status::Running);
}

#[test]
fn wait_reset_restores_latch() {
    let mut w = Wait::from_nanos(0);
    assert_eq!(w.tick(0, &mut None), Status::Running);
    assert_eq!(w.tick(0, &mut None), Status::Success);
    w.reset();
    assert_eq!(w.name(), "wait 0");
    // Pristine again: one Running cycle is guaranteed anew.
    assert_eq!(w.tick(0, &mut None), Status::Running);
    assert_eq!(w.tick(0, &mut None), Status::Success);
}

#[test]
fn trace_of_sequence_of_waits_stops_at_first_leaf() {
    let kids = vec![
        Tree::Wait(Wait::from_nanos(HOUR_NS)),
        Tree::Wait(Wait::from_nanos(HOUR_NS)),
    ];
    let mut root = Sequence::new("root".into(), kids);
    let mut trace = Some(Vec::new());
    let status = root.tick(0, &mut trace);
    assert_eq!(status, Status::Running);
    // The first leaf returns Running, so the second is never reached.
    assert_eq!(
        trace.unwrap(),
        vec![entry(0, "root"), entry(1, "wait 3600000")]
    );
}

#[test]
fn nested_sequences_short_circuit() {
    let inner = Sequence::new(
        "nested".into(),
        vec![
            Tree::AlwaysSuccess(AlwaysSuccess),
            Tree::AlwaysFailure(AlwaysFailure),
        ],
    );
    let mut root = Sequence::new(
        "root".into(),
        vec![
            Tree::Sequence(inner),
            Tree::AlwaysFailure(AlwaysFailure),
        ],
    );
    let mut trace = Some(Vec::new());
    let status = root.tick(0, &mut trace);
    assert_eq!(status, Status::Failure);
    // Only the first two leaves ran: the inner sequence failed, and the
    // outer one short-circuited before its trailing leaf.
    assert_eq!(
        trace.unwrap(),
        vec![
            entry(0, "root"),
            entry(1, "nested"),
            entry(2, "always-success"),
            entry(2, "always-failure"),
        ]
    );
}

#[test]
fn absent_trace_stays_absent() {
    let mut root = Selector::new(
        "root".into(),
        vec![Tree::AlwaysSuccess(AlwaysSuccess)],
    );
    let mut trace: Option<Vec<(usize, String)>> = None;
    assert_eq!(root.tick(0, &mut trace), Status::Success);
    assert!(trace.is_none());
}

#[test]
fn composites_resume_from_the_start() {
    // A sequence in front of a long wait re-ticks its earlier child on
    // every cycle: composites keep no index across ticks.
    let kids = vec![
        Tree::Once(Once::new(Box::new(Tree::AlwaysSuccess(AlwaysSuccess)))),
        Tree::Wait(Wait::from_nanos(HOUR_NS)),
    ];
    let mut root = Sequence::new("root".into(), kids);
    assert_eq!(root.tick(0, &mut None), Status::Running);
    let mut trace = Some(Vec::new());
    assert_eq!(root.tick(0, &mut trace), Status::Running);
    let entries = trace.unwrap();
    // The first child was ticked again (from its cache) before the wait.
    assert_eq!(entries[0], entry(0, "root"));
    assert_eq!(entries[1], entry(1, "once cached Success"));
    assert_eq!(entries.len(), 3);
    assert_eq!(entries[2].0, 1);
}

#[test]
fn tree_node_interface_reports_and_resets() {
    let mut t = Tree::Once(Once::new(Box::new(Tree::Wait(Wait::from_nanos(0)))));
    assert_eq!(t.name(), "once");
    assert_eq!(t.tick(0, &mut None), Status::Running);
    assert_eq!(t.tick(0, &mut None), Status::Success);
    assert_eq!(t.name(), "once cached Success");
    t.reset();
    assert_eq!(t.name(), "once");
    // The wait inside was reset too: its latch holds again.
    assert_eq!(t.tick(0, &mut None), Status::Running);
}

#[test]
fn wait_label_floors_to_whole_milliseconds() {
    let w = Wait::from_nanos(1_500_000);
    assert_eq!(w.name(), "wait 1");
    let v = Wait::from_nanos(999_999);
    assert_eq!(v.name(), "wait 0");
}

#[test]
fn selector_of_failures_ticks_all_children() {
    let kids = vec![
        Tree::AlwaysFailure(AlwaysFailure),
        Tree::AlwaysFailure(AlwaysFailure),
        Tree::AlwaysFailure(AlwaysFailure),
    ];
    let mut root = Selector::new("root".into(), kids);
    let mut trace = Some(Vec::new());
    assert_eq!(root.tick(0, &mut trace), Status::Failure);
    assert_eq!(trace.unwrap().len(), 4);
}

#[test]
fn once_does_not_cache_running() {
    let mut once = Once::new(Box::new(Tree::AlwaysRunning(AlwaysRunning)));
    let mut trace = Some(Vec::new());
    assert_eq!(once.tick(0, &mut trace), Status::Running);
    assert_eq!(once.name(), "once");
    assert_eq!(once.tick(0, &mut trace), Status::Running);
    // The child ran on both ticks: a Running result is never cached.
    assert_eq!(
        trace.unwrap(),
        vec![
            entry(0, "once"),
            entry(1, "always-running"),
            entry(0, "once"),
            entry(1, "always-running"),
        ]
    );
}

#[test]
fn composite_names_are_reported() {
    let sel = Selector::new("pick".to_string(), Vec::new());
    let seq = Sequence::new("do-all".to_string(), Vec::new());
    assert_eq!(sel.name(), "pick");
    assert_eq!(seq.name(), "do-all");
    let t = Tree::Selector(sel);
    assert_eq!(t.name(), "pick");
}

#[test]
fn wait_verdict_compares_elapsed_to_span() {
    assert_eq!(wait_verdict(0, 0), Status::Success);
    assert_eq!(wait_verdict(4, 5), Status::Running);
    assert_eq!(wait_verdict(5, 5), Status::Success);
    assert_eq!(wait_verdict(6, 5), Status::Success);
}

#[test]
fn remaining_ms_floors_at_zero() {
    assert_eq!(remaining_ms(10, 3), 7);
    assert_eq!(remaining_ms(3, 3), 0);
    assert_eq!(remaining_ms(3, 10), 0);
}
