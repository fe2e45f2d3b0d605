//! `workspace forget`, step by step.

use jj_commands::error::Failure;
use jj_commands::error::MessageKind;
use jj_commands::workspace::forget::ForgetAction;
use jj_commands::workspace::forget::ForgetEvent;
use jj_commands::workspace::forget::ForgetState;
use jj_commands::workspace::forget::ForgetStep;
use jj_commands::workspace::forget::TransactionStep;
use jj_commands::workspace::forget::WorkspaceForgetArgs;
use jj_commands::workspace::forget::WorkspaceName;
use jj_commands::workspace::forget::cmd_workspace_forget;
use jj_commands::workspace::forget::plan_transaction;
use jj_commands::workspace::forget::take_step;
use jj_commands::workspace::worktree::GitArg;
use jj_commands::workspace::worktree::GitOutcome;
use jj_commands::workspace::worktree::GitdirLocation;

type Event = ForgetEvent<&'static str>;
type Action = ForgetAction<&'static str>;

fn workspace(name: &str) -> WorkspaceName {
    WorkspaceName { name: name.to_owned(), symbol: format!("<{name}>") }
}

fn args(names: &[&str], cleanup: bool, force: bool) -> WorkspaceForgetArgs {
    WorkspaceForgetArgs {
        workspaces: names.iter().map(|name| workspace(name)).collect(),
        cleanup,
        force,
    }
}

fn begin(known: &[&str]) -> Event {
    ForgetEvent::Begin {
        current: workspace("default"),
        known: known.iter().map(|name| name.to_string()).collect(),
    }
}

fn path(components: &[&str]) -> Event {
    ForgetEvent::Resolved(Some(
        components.iter().map(|component| component.as_bytes().to_vec()).collect(),
    ))
}

/// The reports that show a workspace to be a worktree of the repository.
fn colocated(dir: &str) -> Vec<Event> {
    vec![
        ForgetEvent::Found(true),
        ForgetEvent::Directory(Some(dir.to_owned())),
        ForgetEvent::Gitlink(Some("gitdir: /repo/.git/worktrees/w\n".to_owned())),
        path(&["/", "repo", ".git", "worktrees", "w"]),
        path(&["/", "repo", ".git", "worktrees"]),
    ]
}

/// Hands events to the command, one after the other, and gives back its last
/// action and all that it said.
fn play(args: &WorkspaceForgetArgs, events: Vec<Event>) -> (Action, Vec<(MessageKind, String)>) {
    let mut state = ForgetState::Start;
    let mut last = ForgetAction::Nothing;
    let mut said = vec![];
    for event in events {
        let step = cmd_workspace_forget(args, state, event);
        state = step.state;
        last = step.action;
        said.extend(step.messages.into_iter().map(|message| (message.kind, message.text)));
    }
    (last, said)
}

fn spell(steps: Vec<TransactionStep>) -> Vec<String> {
    steps
        .into_iter()
        .map(|step| match step {
            TransactionStep::RemoveWcCommit(name) => format!("remove {name}"),
            TransactionStep::ClearGitHead(name) => format!("clear {name}"),
            TransactionStep::ForgetInStore(names) => format!("forget {}", names.join(" ")),
            TransactionStep::Finish(description) => format!("finish {description}"),
        })
        .collect()
}

fn transaction(action: Action) -> Vec<String> {
    match action {
        ForgetAction::RunTransaction(steps) => spell(steps),
        other => panic!("no transaction: {other:?}"),
    }
}

#[test]
fn current_workspace_is_forgotten_by_default() {
    let (action, said) =
        play(&args(&[], false, false), vec![begin(&["default", "second"]), ForgetEvent::Done]);
    assert_eq!(
        transaction(action),
        vec![
            "remove default",
            "clear default",
            "forget default",
            "finish forget workspace <default>"
        ]
    );
    assert!(said.is_empty());
}

#[test]
fn named_workspaces_are_forgotten_in_one_transaction() {
    let (action, _) = play(
        &args(&["second", "default"], false, false),
        vec![begin(&["default", "second"]), ForgetEvent::Done],
    );
    assert_eq!(
        transaction(action),
        vec![
            "remove second",
            "clear second",
            "remove default",
            "clear default",
            "forget second default",
            "finish forget workspaces <second>, <default>"
        ]
    );
}

#[test]
fn missing_workspaces_are_warned_of() {
    let (action, said) = play(
        &args(&["gone", "second", "lost"], false, false),
        vec![begin(&["default", "second"]), ForgetEvent::Done],
    );
    assert_eq!(
        transaction(action),
        vec!["remove second", "clear second", "forget second", "finish forget workspace <second>"]
    );
    assert_eq!(
        said,
        vec![
            (MessageKind::Warning, "No such workspace: <gone>".to_owned()),
            (MessageKind::Warning, "No such workspace: <lost>".to_owned()),
        ]
    );
}

#[test]
fn nothing_changes_without_a_known_workspace() {
    let (action, said) = play(&args(&["gone"], true, true), vec![begin(&["default"])]);
    assert!(matches!(action, ForgetAction::Return(Ok(()))));
    assert_eq!(
        said,
        vec![
            (MessageKind::Warning, "No such workspace: <gone>".to_owned()),
            (MessageKind::Status, "Nothing changed.".to_owned()),
        ]
    );
}

#[test]
fn workspace_named_twice_is_dropped_twice() {
    let steps = plan_transaction(&vec![workspace("a"), workspace("a")]);
    assert_eq!(
        spell(steps),
        vec![
            "remove a",
            "clear a",
            "remove a",
            "clear a",
            "forget a a",
            "finish forget workspaces <a>, <a>"
        ]
    );
}

#[test]
fn store_is_loaded_first() {
    let (action, _) = play(&args(&[], true, false), vec![begin(&["default"])]);
    assert!(matches!(action, ForgetAction::LoadStore));
}

#[test]
fn without_cleanup_no_directory_is_touched() {
    for force in [false, true] {
        let events = vec![begin(&["default"]), ForgetEvent::Done, ForgetEvent::Done];
        let (action, said) = play(&args(&[], false, force), events);
        assert!(matches!(action, ForgetAction::Return(Ok(()))));
        assert!(said.is_empty());
    }
}

#[test]
fn cleanup_needs_a_git_repository() {
    let args = args(&[], true, false);
    let (action, _) = play(&args, vec![begin(&["default"]), ForgetEvent::Done]);
    assert!(matches!(action, ForgetAction::FindGitBackend));
    let events = vec![begin(&["default"]), ForgetEvent::Done, ForgetEvent::Found(false)];
    let (action, _) = play(&args, events);
    assert_eq!(transaction(action).len(), 4);
}

#[test]
fn worktree_is_collected_and_removed_after_the_commit() {
    let args = args(&[], true, true);
    let mut events =
        vec![begin(&["default"]), ForgetEvent::Done, ForgetEvent::Found(true)];
    events.extend(colocated("/w"));
    let (action, _) = play(&args, events);
    assert!(matches!(action, ForgetAction::ReadGitExecutable));

    let mut events =
        vec![begin(&["default"]), ForgetEvent::Done, ForgetEvent::Found(true)];
    events.extend(colocated("/w"));
    events.push(ForgetEvent::Done);
    let (action, _) = play(&args, events);
    assert_eq!(transaction(action).len(), 4);

    let mut events =
        vec![begin(&["default"]), ForgetEvent::Done, ForgetEvent::Found(true)];
    events.extend(colocated("/w"));
    events.push(ForgetEvent::Done);
    events.push(ForgetEvent::Done);
    let (action, _) = play(&args, events);
    match action {
        ForgetAction::RunGit(0, command) => {
            assert_eq!(command.arguments.len(), 6);
            assert!(matches!(&command.arguments[4], GitArg::Text(text) if text == "--force"));
        }
        other => panic!("no run of git: {other:?}"),
    }
}

#[test]
fn failed_transaction_leaves_worktrees_alone() {
    let mut events =
        vec![begin(&["default"]), ForgetEvent::Done, ForgetEvent::Found(true)];
    events.extend(colocated("/w"));
    events.push(ForgetEvent::Done);
    events.push(ForgetEvent::Failed("conflict"));
    let (action, _) = play(&args(&[], true, false), events);
    assert!(matches!(action, ForgetAction::Return(Err(Failure::Host("conflict")))));

    let mut events =
        vec![begin(&["default"]), ForgetEvent::Done, ForgetEvent::Found(true)];
    events.extend(colocated("/w"));
    events.push(ForgetEvent::Done);
    events.push(ForgetEvent::Failed("conflict"));
    events.push(ForgetEvent::Done);
    let (action, _) = play(&args(&[], true, false), events);
    assert!(matches!(action, ForgetAction::Nothing));
}

#[test]
fn every_worktree_is_tried_whatever_came_before() {
    let args = args(&["a", "b"], true, false);
    let mut events =
        vec![begin(&["a", "b"]), ForgetEvent::Done, ForgetEvent::Found(true)];
    events.extend(colocated("/a"));
    events.extend(colocated("/b"));
    events.push(ForgetEvent::Done);
    events.push(ForgetEvent::Done);
    events.push(ForgetEvent::GitRan(GitOutcome::Failure(b"fatal: x is dirty".to_vec())));
    let (action, said) = play(&args, events);
    assert!(matches!(action, ForgetAction::RunGit(1, _)));
    assert_eq!(
        said,
        vec![
            (
                MessageKind::Warning,
                "Git worktree for workspace <a> has uncommitted changes and was not removed."
                    .to_owned()
            ),
            (
                MessageKind::Hint,
                "Use --cleanup --force to remove it anyway, or manually clean up with `git \
                 worktree remove --force /a`"
                    .to_owned()
            ),
        ]
    );

    let mut events =
        vec![begin(&["a", "b"]), ForgetEvent::Done, ForgetEvent::Found(true)];
    events.extend(colocated("/a"));
    events.extend(colocated("/b"));
    events.push(ForgetEvent::Done);
    events.push(ForgetEvent::Done);
    events.push(ForgetEvent::GitRan(GitOutcome::Success));
    events.push(ForgetEvent::GitRan(GitOutcome::NotRun("no git".to_owned())));
    let (action, said) = play(&args, events);
    assert!(matches!(action, ForgetAction::Return(Ok(()))));
    assert_eq!(
        said,
        vec![(
            MessageKind::Warning,
            "Failed to run git worktree remove for workspace <b>: no git".to_owned()
        )]
    );
}

/// What the command asks for after these reports on the first of two
/// workspaces.
fn after_looking(reports: Vec<Event>) -> Action {
    let mut events = vec![begin(&["a", "b"]), ForgetEvent::Done, ForgetEvent::Found(true)];
    events.extend(reports);
    play(&args(&["a", "b"], true, false), events).0
}

fn turns_to_second(action: Action) -> bool {
    matches!(action, ForgetAction::FindStoredPath(1, name) if name == "b")
}

#[test]
fn what_is_no_worktree_is_passed_over() {
    assert!(matches!(
        after_looking(vec![]),
        ForgetAction::FindStoredPath(0, name) if name == "a"
    ));
    assert!(turns_to_second(after_looking(vec![ForgetEvent::Found(false)])));
    assert!(matches!(
        after_looking(vec![ForgetEvent::Found(true)]),
        ForgetAction::ResolveDirectory(0)
    ));
    let missing = vec![ForgetEvent::Found(true), ForgetEvent::Directory(None)];
    assert!(turns_to_second(after_looking(missing)));
    let there = || vec![ForgetEvent::Found(true), ForgetEvent::Directory(Some("/a".to_owned()))];
    assert!(matches!(after_looking(there()), ForgetAction::ReadGitlink(0)));
    let mut unreadable = there();
    unreadable.push(ForgetEvent::Gitlink(None));
    assert!(turns_to_second(after_looking(unreadable)));
    let mut other_file = there();
    other_file.push(ForgetEvent::Gitlink(Some("hello".to_owned())));
    assert!(turns_to_second(after_looking(other_file)));
    let linked = || {
        let mut reports = there();
        reports.push(ForgetEvent::Gitlink(Some("gitdir: /x/w".to_owned())));
        reports
    };
    let mut dangling = linked();
    dangling.push(ForgetEvent::Resolved(None));
    assert!(turns_to_second(after_looking(dangling)));
    let mut without_worktrees = linked();
    without_worktrees.push(path(&["/", "x", "w"]));
    without_worktrees.push(ForgetEvent::Resolved(None));
    assert!(turns_to_second(after_looking(without_worktrees)));
    let mut elsewhere = linked();
    elsewhere.push(path(&["/", "x", "w"]));
    assert!(matches!(
        after_looking(linked().into_iter().chain([path(&["/", "x", "w"])]).collect()),
        ForgetAction::ResolveWorktreesDir
    ));
    elsewhere.push(path(&["/", "repo", ".git", "worktrees"]));
    assert!(turns_to_second(after_looking(elsewhere)));
}

#[test]
fn workspaces_elsewhere_are_not_removed() {
    let mut events =
        vec![begin(&["a", "b"]), ForgetEvent::Done, ForgetEvent::Found(true)];
    events.push(ForgetEvent::Found(false));
    events.extend(colocated("/b"));
    events.push(ForgetEvent::Done);
    events.push(ForgetEvent::Done);
    let (action, _) = play(&args(&["a", "b"], true, false), events);
    assert!(matches!(action, ForgetAction::RunGit(1, _)));
}

fn reading_gitlink() -> ForgetState {
    let args = args(&[], true, false);
    let mut state = ForgetState::Start;
    let events: Vec<Event> = vec![
        begin(&["default"]),
        ForgetEvent::Done,
        ForgetEvent::Found(true),
        ForgetEvent::Found(true),
        ForgetEvent::Directory(Some("/w".to_owned())),
    ];
    for event in events {
        state = cmd_workspace_forget(&args, state, event).state;
    }
    state
}

fn gitdir_of(content: &str) -> GitdirLocation {
    let event: Event = ForgetEvent::Gitlink(Some(content.to_owned()));
    match cmd_workspace_forget(&args(&[], true, false), reading_gitlink(), event).action {
        ForgetAction::ResolveGitdir(0, location) => location,
        other => panic!("no directory to resolve: {other:?}"),
    }
}

#[test]
fn platform_tells_absolute_paths_from_relative_ones() {
    assert!(matches!(
        gitdir_of("gitdir: ../.git/worktrees/w"),
        GitdirLocation::InWorkspace(path) if path == "../.git/worktrees/w"
    ));
    assert!(matches!(
        gitdir_of("gitdir: a:b/c"),
        GitdirLocation::InWorkspace(path) if path == "a:b/c"
    ));
    assert!(matches!(
        gitdir_of("gitdir: second"),
        GitdirLocation::InWorkspace(path) if path == "second"
    ));
    assert!(matches!(
        gitdir_of("gitdir:"),
        GitdirLocation::InWorkspace(path) if path.is_empty()
    ));
    let rooted = if std::path::MAIN_SEPARATOR == '\\' { "C:\\repo\\w" } else { "/repo/w" };
    let content = format!("gitdir: {rooted}\n");
    assert!(matches!(
        gitdir_of(&content),
        GitdirLocation::Absolute(path) if path == rooted
    ));
}

#[test]
fn given_nature_of_a_path_is_believed() {
    for absolute in [false, true] {
        let event: Event = ForgetEvent::Gitlink(Some("gitdir: x".to_owned()));
        let step: ForgetStep<&'static str> =
            take_step(&args(&[], true, false), reading_gitlink(), event, absolute);
        match step.action {
            ForgetAction::ResolveGitdir(0, GitdirLocation::Absolute(path)) => {
                assert!(absolute);
                assert_eq!(path, "x");
            }
            ForgetAction::ResolveGitdir(0, GitdirLocation::InWorkspace(path)) => {
                assert!(!absolute);
                assert_eq!(path, "x");
            }
            other => panic!("no directory to resolve: {other:?}"),
        }
    }
}

#[test]
fn failures_of_the_host_end_the_command() {
    let args = args(&[], true, false);
    let (unopened, _) = play(&args, vec![ForgetEvent::Failed("closed")]);
    assert!(matches!(unopened, ForgetAction::Return(Err(Failure::Host("closed")))));
    let (unloaded, _) = play(&args, vec![begin(&["default"]), ForgetEvent::Failed("no store")]);
    assert!(matches!(unloaded, ForgetAction::Return(Err(Failure::Host("no store")))));
    let events = vec![
        begin(&["default"]),
        ForgetEvent::Done,
        ForgetEvent::Found(true),
        ForgetEvent::Found(false),
        ForgetEvent::Failed("no executable"),
    ];
    let (unset, _) = play(&args, events);
    assert!(matches!(unset, ForgetAction::Return(Err(Failure::Host("no executable")))));
}

#[test]
fn stray_events_are_ignored_by_forget() {
    let (action, said) = play(&args(&[], true, false), vec![ForgetEvent::Done]);
    assert!(matches!(action, ForgetAction::Nothing));
    assert!(said.is_empty());
    let events = vec![begin(&["default"]), ForgetEvent::Found(true)];
    let (action, _) = play(&args(&[], true, false), events);
    assert!(matches!(action, ForgetAction::Nothing));
}
