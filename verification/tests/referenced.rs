use behavior_tree::AlwaysFailure;
use behavior_tree::AlwaysSuccess;
use behavior_tree::Node;
use behavior_tree::Selector;
use behavior_tree::Sequence;
use behavior_tree::Status;
use behavior_tree::Tree;

#[test]
fn selector_success() {
    let s1 = Tree::AlwaysSuccess(AlwaysSuccess);
    let s2 = Tree::AlwaysSuccess(AlwaysSuccess);
    let mut root = Selector::new("root".into(), vec![s1, s2]);
    let status = root.tick(0, &mut None);
    println!("selector {:?}", status);
    assert!(matches!(status, Status::Success));
}

#[test]
fn sequence_success() {
    let s1 = Tree::AlwaysSuccess(AlwaysSuccess);
    let s2 = Tree::AlwaysSuccess(AlwaysSuccess);
    let mut root = Sequence::new("root".into(), vec![s1, s2]);
    let status = root.tick(0, &mut None);
    println!("sequence {:?}", status);
    assert!(matches!(status, Status::Success));
}

#[test]
fn selector_fail() {
    let s1 = Tree::AlwaysFailure(AlwaysFailure);
    let s2 = Tree::AlwaysFailure(AlwaysFailure);
    let mut root = Selector::new("root".into(), vec![s1, s2]);
    let status = root.tick(0, &mut None);
    println!("selector {:?}", status);
    assert!(matches!(status, Status::Failure));
}

#[test]
fn sequence_fail() {
    let s1 = Tree::AlwaysFailure(AlwaysFailure);
    let s2 = Tree::AlwaysFailure(AlwaysFailure);
    let mut root = Sequence::new("root".into(), vec![s1, s2]);
    let status = root.tick(0, &mut None);
    println!("sequence {:?}", status);
    assert!(matches!(status, Status::Failure));
}

#[test]
fn composite() {
    let s1 = Tree::AlwaysSuccess(AlwaysSuccess);
    let s2 = Tree::AlwaysFailure(AlwaysFailure);
    let root = Sequence::new("root".into(), vec![s1, s2]);
    let s3 = Tree::AlwaysFailure(AlwaysFailure);
    let mut root2 = Sequence::new("root".into(), vec![Tree::Sequence(root), s3]);
    let status = root2.tick(0, &mut None);
    println!("root2 {:?}", status);
    assert!(matches!(status, Status::Failure));
}
