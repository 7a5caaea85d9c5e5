use git_stack::branch::{Branch, BranchIndex, BranchKind};
use git_stack::commit::{Commit, CommitId};
use git_stack::push::{credential_user, negotiate, plan, PushError, PushOptions, RefUpdate};
use git_stack::stack::{current, StackEntry};

fn id(first: u8) -> CommitId {
    let mut bytes = vec![0u8; 20];
    bytes[0] = first;
    CommitId::new(bytes)
}

fn entry(first: u8, branch: Option<&str>) -> StackEntry {
    StackEntry { id: id(first), summary: "s".to_string(), local_branch: branch.map(|b| b.to_string()) }
}

fn full(name: &str) -> Option<String> {
    Some(format!("refs/heads/{}", name))
}

#[test]
fn plan_without_force_has_no_marker() {
    let stack = vec![entry(3, Some("top")), entry(2, None), entry(1, Some("low"))];
    let resolved = vec![full("top"), None, full("low")];
    let specs = plan(&stack, &resolved, false).unwrap();
    assert_eq!(specs, vec!["refs/heads/top:refs/heads/top", "refs/heads/low:refs/heads/low"]);
}

#[test]
fn plan_with_force_marks_every_refspec() {
    let stack = vec![entry(3, Some("top")), entry(2, None), entry(1, Some("low"))];
    let resolved = vec![full("top"), None, full("low")];
    let specs = plan(&stack, &resolved, true).unwrap();
    assert_eq!(specs, vec!["+refs/heads/top:refs/heads/top", "+refs/heads/low:refs/heads/low"]);
}

#[test]
fn plan_of_unlabelled_stack_is_empty() {
    let stack = vec![entry(2, None), entry(1, None)];
    let specs = plan(&stack, &vec![None, None], true).unwrap();
    assert!(specs.is_empty());
}

#[test]
fn plan_reports_first_stale_branch() {
    let stack = vec![entry(3, Some("top")), entry(2, Some("mid")), entry(1, Some("low"))];
    let resolved = vec![full("top"), None, None];
    assert_eq!(plan(&stack, &resolved, false), Err(PushError::Resolution("mid".to_string())));
}

#[test]
fn push_scenario_uses_upstream_and_one_refspec() {
    let walk = vec![
        Commit { id: id(0xc2), summary: "Add feature".to_string() },
        Commit { id: id(0xc1), summary: "Prepare".to_string() },
        Commit { id: id(0xc0), summary: "Initial".to_string() },
    ];
    let branches = vec![
        Branch { name: "main".to_string(), kind: BranchKind::Local, target: Some(id(0xc0)) },
        Branch { name: "feature".to_string(), kind: BranchKind::Local, target: Some(id(0xc2)) },
    ];
    let stack = current(&walk, &id(0xc0), &BranchIndex::build(&branches));
    let options = PushOptions { base: "main".to_string(), remote: None, force: false };
    assert_eq!(options.remote_name(Some("origin".to_string())), Ok("origin".to_string()));
    let resolved = vec![full("feature"), None];
    let specs = plan(&stack, &resolved, options.force).unwrap();
    assert_eq!(specs, vec!["refs/heads/feature:refs/heads/feature"]);
}

#[test]
fn explicit_remote_wins_over_upstream() {
    let options = PushOptions { base: "main".to_string(), remote: Some("fork".to_string()), force: true };
    assert_eq!(options.remote_name(Some("origin".to_string())), Ok("fork".to_string()));
}

#[test]
fn no_remote_and_no_upstream_fails() {
    let options = PushOptions { base: "main".to_string(), remote: None, force: false };
    assert_eq!(options.remote_name(None), Err(PushError::RemoteNotFound));
}

#[test]
fn non_ssh_credential_is_refused() {
    assert_eq!(credential_user(false, Some("git".to_string())), Err(PushError::UnsupportedCredentialType));
}

#[test]
fn credential_without_username_fails() {
    assert_eq!(credential_user(true, None), Err(PushError::MissingUsername));
}

#[test]
fn credential_uses_url_username() {
    assert_eq!(credential_user(true, Some("git".to_string())), Ok("git".to_string()));
}

#[test]
fn negotiation_lines_show_full_ids() {
    let update = RefUpdate {
        src_refname: "refs/heads/a".to_string(),
        src: CommitId::new(vec![0xde, 0xad]),
        dst_refname: "refs/heads/a".to_string(),
        dst: CommitId::new(vec![0x00, 0x01]),
    };
    assert_eq!(negotiate(&vec![update]), vec!["refs/heads/a (dead) -> refs/heads/a (0001)"]);
}
