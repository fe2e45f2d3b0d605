//! `histedit`, step by step.

use jj_commands::commit::Commit;
use jj_commands::commit::CommitId;
use jj_commands::error::CommandErrorKind;
use jj_commands::error::Failure;
use jj_commands::error::MessageKind;
use jj_commands::histedit::command::HisteditAction;
use jj_commands::histedit::command::HisteditArgs;
use jj_commands::histedit::command::HisteditEvent;
use jj_commands::histedit::command::HisteditState;
use jj_commands::histedit::command::HisteditStep;
use jj_commands::histedit::command::cmd_histedit;
use jj_commands::revision::RevisionArg;

type Event = HisteditEvent<&'static str>;
type Step = HisteditStep<&'static str>;

fn args(revisions: &[&str]) -> HisteditArgs {
    HisteditArgs {
        revisions: revisions.iter().map(|text| RevisionArg::from_text(text.to_string())).collect(),
    }
}

fn id(byte: u8) -> CommitId {
    CommitId::new(vec![byte])
}

fn commit(own: u8, parents: &[u8]) -> Commit {
    Commit::new(id(own), parents.iter().map(|parent| id(*parent)).collect())
}

fn play(args: &HisteditArgs, events: Vec<Event>) -> Step {
    let mut step =
        HisteditStep { state: HisteditState::Start, message: None, action: HisteditAction::Nothing };
    for event in events {
        step = cmd_histedit(args, step.state, event);
    }
    step
}

/// The reports up to where the revisions have been checked.
fn checked() -> Vec<Event> {
    vec![HisteditEvent::Begin, HisteditEvent::Done, HisteditEvent::Done, HisteditEvent::Done]
}

/// The reports up to where the terminal has been set up.
fn set_up() -> Vec<Event> {
    let mut events = checked();
    events.push(HisteditEvent::Gap(None));
    events.push(HisteditEvent::Commits(vec![commit(9, &[2])]));
    events.push(HisteditEvent::Commits(vec![commit(2, &[1]), commit(1, &[0])]));
    events.push(HisteditEvent::Done);
    events
}

fn after(mut events: Vec<Event>, event: Event) -> Vec<Event> {
    events.push(event);
    events
}

#[test]
fn default_revisions_come_from_the_setting() {
    let step = play(&args(&[]), vec![HisteditEvent::Begin]);
    assert!(matches!(step.action, HisteditAction::ReadSetting(name) if name == "revsets.histedit"));
    let events = vec![HisteditEvent::Begin, HisteditEvent::Setting("mutable()".to_owned())];
    let step = play(&args(&[]), events);
    assert!(matches!(step.action, HisteditAction::ParseRevset(arg) if arg.text == "mutable()"));
}

#[test]
fn given_revisions_are_united() {
    let step = play(&args(&["a", "b"]), vec![HisteditEvent::Begin]);
    match step.action {
        HisteditAction::ParseUnion(list) => {
            let texts: Vec<&str> = list.iter().map(|arg| arg.text.as_str()).collect();
            assert_eq!(texts, vec!["a", "b"]);
        }
        _ => panic!("no union"),
    }
}

#[test]
fn revisions_are_checked_before_they_are_looked_for() {
    let args = args(&["a"]);
    let mut events = vec![HisteditEvent::Begin, HisteditEvent::Done];
    assert!(matches!(play(&args, events).action, HisteditAction::Resolve));
    events = vec![HisteditEvent::Begin, HisteditEvent::Done, HisteditEvent::Done];
    assert!(matches!(play(&args, events).action, HisteditAction::CheckRewritable));
    assert!(matches!(play(&args, checked()).action, HisteditAction::FindGap));
    let events = after(checked(), HisteditEvent::Gap(None));
    assert!(matches!(play(&args, events).action, HisteditAction::FindChildren));
    let events =
        after(after(checked(), HisteditEvent::Gap(None)), HisteditEvent::Commits(vec![]));
    assert!(matches!(play(&args, events).action, HisteditAction::FindTargets));
}

#[test]
fn gaps_are_refused() {
    let events = after(checked(), HisteditEvent::Gap(Some("abc123".to_owned())));
    match play(&args(&["a"]), events).action {
        HisteditAction::Return(Err(Failure::Command(error))) => {
            assert_eq!(error.kind, CommandErrorKind::User);
            assert_eq!(error.message, "Cannot edit history of revsets with gaps in.");
            assert_eq!(
                error.hints,
                vec!["Revision abc123 would need to be in the set.".to_owned()]
            );
        }
        _ => panic!("no error of the command"),
    }
}

#[test]
fn nothing_to_edit_is_said() {
    let mut events = after(checked(), HisteditEvent::Gap(None));
    events.push(HisteditEvent::Commits(vec![commit(9, &[2])]));
    events.push(HisteditEvent::Commits(vec![]));
    let step = play(&args(&["none()"]), events);
    assert!(matches!(step.action, HisteditAction::Return(Ok(()))));
    let message = step.message.unwrap();
    assert_eq!(message.kind, MessageKind::Status);
    assert_eq!(message.text, "No revisions to edit.");
}

#[test]
fn editor_gets_the_reported_commits() {
    let step = play(&args(&["a"]), set_up());
    match step.action {
        HisteditAction::Edit(state) => {
            assert_eq!(state.original_order.len(), 2);
            assert!(state.original_order[0].same(&id(2)));
            assert!(state.original_order[1].same(&id(1)));
            assert!(state.external_parents.contains(&id(0)));
            assert!(state.external_children.contains(&id(9)));
            assert!(state.children.get(&id(2)).unwrap()[0].same(&id(9)));
        }
        _ => panic!("no editor"),
    }
}

#[test]
fn terminal_is_restored_whatever_the_outcome() {
    let outcomes: Vec<Result<(), Failure<&'static str>>> = vec![Ok(()), Err(Failure::Host("broken"))];
    for outcome in outcomes {
        let failed = outcome.is_err();
        let step = play(&args(&["a"]), after(set_up(), HisteditEvent::Ended(outcome)));
        assert!(matches!(step.action, HisteditAction::RestoreTerminal));
        let end = cmd_histedit(&args(&["a"]), step.state, HisteditEvent::Done);
        match end.action {
            HisteditAction::Return(Ok(())) => assert!(!failed),
            HisteditAction::Return(Err(Failure::Host(error))) => {
                assert!(failed);
                assert_eq!(error, "broken");
            }
            _ => panic!("no end"),
        }
    }
}

#[test]
fn failure_to_restore_the_terminal_comes_first() {
    let mut events = after(set_up(), HisteditEvent::Ended(Err(Failure::Host("broken"))));
    events.push(HisteditEvent::Failed("stuck"));
    let step = play(&args(&["a"]), events);
    assert!(matches!(step.action, HisteditAction::Return(Err(Failure::Host("stuck")))));
}

#[test]
fn histedit_passes_errors_of_the_host_on() {
    let step = play(&args(&[]), vec![HisteditEvent::Failed("closed")]);
    assert!(matches!(step.action, HisteditAction::Return(Err(Failure::Host("closed")))));
    for n in 1..set_up().len() {
        let mut events: Vec<Event> = set_up().into_iter().take(n).collect();
        events.push(HisteditEvent::Failed("no"));
        let step = play(&args(&["a"]), events);
        assert!(matches!(step.action, HisteditAction::Return(Err(Failure::Host("no")))));
        assert!(step.message.is_none());
    }
}

#[test]
fn stray_events_are_ignored_by_histedit() {
    let step = play(&args(&["a"]), vec![HisteditEvent::Done]);
    assert!(matches!(step.action, HisteditAction::Nothing));
    let step = play(&args(&["a"]), after(set_up(), HisteditEvent::Failed("odd")));
    assert!(matches!(step.action, HisteditAction::Nothing));
    assert!(matches!(step.state, HisteditState::Editing));
}

#[test]
fn setting_counts_as_the_only_revision() {
    let mut asked = vec![HisteditEvent::Begin, HisteditEvent::Setting("r".to_owned())];
    asked.extend(set_up().into_iter().skip(1));
    let by_default = play(&args(&[]), asked);
    let by_name = play(&args(&["r"]), set_up());
    match (by_default.action, by_name.action) {
        (HisteditAction::Edit(one), HisteditAction::Edit(other)) => {
            assert_eq!(one.original_order.len(), other.original_order.len());
            assert!(one.original_order[0].same(&other.original_order[0]));
        }
        _ => panic!("no editor"),
    }
}
