//! Git worktrees of workspaces.

use jj_commands::error::Message;
use jj_commands::error::MessageKind;
use jj_commands::workspace::worktree::Complaint;
use jj_commands::workspace::worktree::GitArg;
use jj_commands::workspace::worktree::GitOutcome;
use jj_commands::workspace::worktree::GitdirLocation;
use jj_commands::workspace::worktree::is_under;
use jj_commands::workspace::worktree::locate;
use jj_commands::workspace::worktree::read_complaint;
use jj_commands::workspace::worktree::read_gitlink;
use jj_commands::workspace::worktree::remove_worktree;
use jj_commands::workspace::worktree::report_failure;
use jj_commands::workspace::worktree::report_removal;

fn path(components: &[&str]) -> Vec<Vec<u8>> {
    components.iter().map(|component| component.as_bytes().to_vec()).collect()
}

fn shown(report: Vec<Message>) -> Vec<(MessageKind, String)> {
    report.into_iter().map(|message| (message.kind, message.text)).collect()
}

fn words(force: bool) -> Vec<String> {
    remove_worktree(force)
        .arguments
        .into_iter()
        .map(|argument| match argument {
            GitArg::Text(text) => text,
            GitArg::CommonDir => "<common>".to_owned(),
            GitArg::Worktree => "<worktree>".to_owned(),
        })
        .collect()
}

#[test]
fn gitlink_names_a_directory() {
    assert_eq!(
        read_gitlink("gitdir: /repo/.git/worktrees/second\n"),
        Some("/repo/.git/worktrees/second".to_owned())
    );
    assert_eq!(read_gitlink("gitdir:../x y \n"), Some("../x y".to_owned()));
    assert_eq!(read_gitlink("gitdir:\n"), Some(String::new()));
}

#[test]
fn other_files_are_no_gitlinks() {
    assert_eq!(read_gitlink(""), None);
    assert_eq!(read_gitlink("ref: refs/heads/main\n"), None);
    assert_eq!(read_gitlink("\ngitdir: /x\n"), None);
    assert_eq!(read_gitlink("Gitdir: /x\n"), None);
}

#[test]
fn relative_gitdirs_are_looked_for_in_the_workspace() {
    assert!(matches!(locate("/x".to_owned(), true), GitdirLocation::Absolute(at) if at == "/x"));
    assert!(
        matches!(locate("../x".to_owned(), false), GitdirLocation::InWorkspace(at) if at == "../x")
    );
}

#[test]
fn only_whole_components_count() {
    let worktrees = path(&["/", "repo", ".git", "worktrees"]);
    assert!(is_under(&path(&["/", "repo", ".git", "worktrees", "second"]), &worktrees));
    assert!(is_under(&worktrees, &worktrees));
    assert!(!is_under(&path(&["/", "repo", ".git", "worktrees2", "second"]), &worktrees));
    assert!(!is_under(&path(&["/", "repo", ".git"]), &worktrees));
    assert!(!is_under(&path(&["/", "other", ".git", "worktrees", "second"]), &worktrees));
    assert!(is_under(&path(&["a"]), &path(&[])));
}

#[test]
fn removal_runs_git_in_the_common_directory() {
    assert_eq!(words(false), vec!["-C", "<common>", "worktree", "remove", "<worktree>"]);
    assert_eq!(words(true), vec!["-C", "<common>", "worktree", "remove", "--force", "<worktree>"]);
    let command = remove_worktree(false);
    assert_eq!((command.variable.as_str(), command.value.as_str()), ("LC_ALL", "C"));
}

#[test]
fn complaints_are_told_apart() {
    let gone = "fatal: '/w' is not a working tree\n";
    let modified = "fatal: '/w' contains modified or untracked files, use --force to delete it\n";
    let dirty = "fatal: worktree is dirty\n";
    assert_eq!(read_complaint(gone, false), Complaint::AlreadyGone);
    assert_eq!(read_complaint(gone, true), Complaint::AlreadyGone);
    assert_eq!(read_complaint(modified, false), Complaint::Dirty);
    assert_eq!(read_complaint(dirty, false), Complaint::Dirty);
    assert_eq!(read_complaint(modified, true), Complaint::Other);
    assert_eq!(read_complaint(dirty, true), Complaint::Other);
    assert_eq!(read_complaint("fatal: locked", false), Complaint::Other);
}

#[test]
fn nothing_is_said_of_a_worktree_that_is_gone() {
    let outcome = GitOutcome::Failure(b"fatal: '/w' is not a working tree".to_vec());
    assert!(report_removal("second", "/w", false, &outcome).is_empty());
    assert!(report_removal("second", "/w", false, &GitOutcome::Success).is_empty());
}

#[test]
fn dirty_worktree_is_reported_with_a_hint() {
    assert_eq!(
        shown(report_failure("second", "/w", false, "x is dirty")),
        vec![
            (
                MessageKind::Warning,
                "Git worktree for workspace second has uncommitted changes and was not removed."
                    .to_owned()
            ),
            (
                MessageKind::Hint,
                "Use --cleanup --force to remove it anyway, or manually clean up with `git \
                 worktree remove --force /w`"
                    .to_owned()
            ),
        ]
    );
}

#[test]
fn other_failures_are_reported_as_git_has_them() {
    let outcome = GitOutcome::Failure(b"\n fatal: locked \xff\n".to_vec());
    assert_eq!(
        shown(report_removal("second", "/w", true, &outcome)),
        vec![(
            MessageKind::Warning,
            "Failed to remove Git worktree for workspace second: fatal: locked \u{fffd}".to_owned()
        )]
    );
}

#[test]
fn git_that_does_not_run_is_reported() {
    let outcome = GitOutcome::NotRun("not found".to_owned());
    assert_eq!(
        shown(report_removal("second", "/w", false, &outcome)),
        vec![(
            MessageKind::Warning,
            "Failed to run git worktree remove for workspace second: not found".to_owned()
        )]
    );
}
