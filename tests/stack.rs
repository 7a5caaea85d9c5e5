use git_stack::branch::{Branch, BranchIndex, BranchKind};
use git_stack::commit::{Commit, CommitId};
use git_stack::stack::{current, render_stack, StackEntry, StackWalker};

fn id(first: u8) -> CommitId {
    let mut bytes = vec![0u8; 20];
    bytes[0] = first;
    bytes[1] = 0x23;
    bytes[2] = 0x45;
    bytes[3] = 0x67;
    bytes[4] = 0x89;
    CommitId::new(bytes)
}

fn commit(first: u8, summary: &str) -> Commit {
    Commit { id: id(first), summary: summary.to_string() }
}

fn branch(name: &str, kind: BranchKind, target: Option<u8>) -> Branch {
    Branch { name: name.to_string(), kind, target: target.map(id) }
}

/// C2 (local branch "feature"), C1, C0 (the base, branch "main"), newest first.
fn scenario() -> (Vec<Commit>, CommitId, BranchIndex) {
    let walk = vec![commit(0xc2, "Add feature"), commit(0xc1, "Prepare"), commit(0xc0, "Initial")];
    let branches = vec![
        branch("main", BranchKind::Local, Some(0xc0)),
        branch("origin/main", BranchKind::Remote, Some(0xc0)),
        branch("feature", BranchKind::Local, Some(0xc2)),
    ];
    (walk, id(0xc0), BranchIndex::build(&branches))
}

#[test]
fn short_hex_shows_nine_digits() {
    assert_eq!(id(0xab).short_hex(), "ab2345678");
}

#[test]
fn to_hex_shows_every_byte() {
    let c = CommitId::new(vec![0x00, 0x0f, 0xf0, 0xff]);
    assert_eq!(c.to_hex(), "000ff0ff");
}

#[test]
fn same_as_compares_bytes() {
    assert!(id(1).same_as(&id(1)));
    assert!(!id(1).same_as(&id(2)));
    assert!(!CommitId::new(vec![1]).same_as(&CommitId::new(vec![1, 2])));
}

#[test]
fn show_scenario_lists_two_entries() {
    let (walk, base, index) = scenario();
    let stack = current(&walk, &base, &index);
    assert_eq!(stack.len(), 2);
    assert!(stack[0].id.same_as(&id(0xc2)));
    assert_eq!(stack[0].local_branch, Some("feature".to_string()));
    assert!(stack[1].id.same_as(&id(0xc1)));
    assert_eq!(stack[1].local_branch, None);
    assert!(stack.iter().all(|e| !e.id.same_as(&base)));
}

#[test]
fn show_scenario_renders_text() {
    let (walk, base, index) = scenario();
    let stack = current(&walk, &base, &index);
    assert_eq!(
        render_stack(&stack),
        "[feature]\n    c22345678 Add feature\n    c12345678 Prepare\n"
    );
}

#[test]
fn head_at_base_gives_empty_stack() {
    let (walk, _, index) = scenario();
    let stack = current(&walk, &id(0xc2), &index);
    assert!(stack.is_empty());
}

#[test]
fn missing_base_gives_whole_walk() {
    let (walk, _, index) = scenario();
    let stack = current(&walk, &id(0x99), &index);
    assert_eq!(stack.len(), 3);
    assert_eq!(stack[2].summary, "Initial");
}

#[test]
fn remote_branch_gives_no_label() {
    let walk = vec![commit(5, "Fix")];
    let branches = vec![branch("origin/fix", BranchKind::Remote, Some(5))];
    let stack = current(&walk, &id(0), &BranchIndex::build(&branches));
    assert_eq!(stack[0].local_branch, None);
}

#[test]
fn first_listed_local_branch_wins() {
    let branches = vec![
        branch("dangling", BranchKind::Local, None),
        branch("origin/b", BranchKind::Remote, Some(7)),
        branch("b", BranchKind::Local, Some(7)),
        branch("a", BranchKind::Local, Some(7)),
    ];
    let index = BranchIndex::build(&branches);
    assert_eq!(index.local_branch(&id(7)), Some("b".to_string()));
    assert_eq!(index.local_branch(&id(8)), None);
}

#[test]
fn walker_stops_at_base() {
    let (walk, base, index) = scenario();
    let mut walker = StackWalker::new(base);
    assert!(walker.accepts(&walk[0].id));
    walker.push(&walk[0], &index);
    assert!(!walker.accepts(&walk[2].id));
    let stack: Vec<StackEntry> = walker.finish();
    assert_eq!(stack.len(), 1);
    assert_eq!(stack[0].local_branch, Some("feature".to_string()));
}

#[test]
fn entry_without_branch_renders_one_line() {
    let e = StackEntry { id: id(0x0a), summary: "Tidy".to_string(), local_branch: None };
    assert_eq!(e.render(), "    0a2345678 Tidy");
}
