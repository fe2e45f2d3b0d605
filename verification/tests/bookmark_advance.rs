//! `bookmark advance`, step by step.

use jj_commands::bookmark::advance::AdvanceAction;
use jj_commands::bookmark::advance::AdvanceEvent;
use jj_commands::bookmark::advance::AdvanceState;
use jj_commands::bookmark::advance::BookmarkAdvanceArgs;
use jj_commands::bookmark::advance::BookmarkMoveArgs;
use jj_commands::bookmark::advance::cmd_bookmark_advance;
use jj_commands::error::CommandErrorKind;
use jj_commands::error::Failure;
use jj_commands::revision::RevisionArg;

type Event = AdvanceEvent<&'static str>;
type Action = AdvanceAction<&'static str>;

fn args(names: Option<Vec<&str>>, to: Option<&str>, allow_backwards: bool) -> BookmarkAdvanceArgs {
    BookmarkAdvanceArgs {
        names: names.map(|list| list.into_iter().map(str::to_owned).collect()),
        to: to.map(|text| RevisionArg::from_text(text.to_owned())),
        allow_backwards,
    }
}

/// Hands events to the command, one after the other, and gives back the last
/// action.
fn play(args: &BookmarkAdvanceArgs, events: Vec<Event>) -> Action {
    let mut state = AdvanceState::Start;
    let mut last = AdvanceAction::Nothing;
    for event in events {
        let (next, action) = cmd_bookmark_advance(args, state, event);
        state = next;
        last = action;
    }
    last
}

fn moved(action: Action) -> BookmarkMoveArgs {
    match action {
        AdvanceAction::Move(request) => request,
        other => panic!("no move: {other:?}"),
    }
}

#[test]
fn given_target_is_resolved_first() {
    let action = play(&args(None, Some("x"), false), vec![AdvanceEvent::Begin]);
    assert!(matches!(action, AdvanceAction::ResolveSingleRev(to) if to.text == "x"));
}

#[test]
fn default_target_comes_from_the_setting() {
    let args = args(None, None, false);
    let action = play(&args, vec![AdvanceEvent::Begin]);
    assert!(matches!(action, AdvanceAction::ReadSetting(name) if name == "revsets.advance-default-to"));
    let action = play(&args, vec![AdvanceEvent::Begin, AdvanceEvent::Setting("@".to_owned())]);
    assert!(matches!(action, AdvanceAction::ResolveSingleRev(to) if to.text == "@"));
}

#[test]
fn advance_moves_from_the_closest_bookmarks() {
    let request = moved(play(
        &args(None, Some("x"), false),
        vec![AdvanceEvent::Begin, AdvanceEvent::Done],
    ));
    assert!(request.names.is_none());
    let from: Vec<&str> = request.from.iter().map(|from| from.text.as_str()).collect();
    assert_eq!(from, vec!["closest_bookmarks(x)"]);
    assert_eq!(request.to.text, "x");
    assert!(!request.allow_backwards);
}

#[test]
fn default_target_goes_into_the_expression() {
    let request = moved(play(
        &args(None, None, true),
        vec![AdvanceEvent::Begin, AdvanceEvent::Setting("@-".to_owned()), AdvanceEvent::Done],
    ));
    assert_eq!(request.from[0].text, "closest_bookmarks(@-)");
    assert_eq!(request.to.text, "@-");
    assert!(request.allow_backwards);
}

#[test]
fn names_replace_the_closest_bookmarks() {
    let request = moved(play(
        &args(Some(vec!["main", "dev*"]), Some("x"), false),
        vec![AdvanceEvent::Begin, AdvanceEvent::Done],
    ));
    assert_eq!(request.names, Some(vec!["main".to_owned(), "dev*".to_owned()]));
    assert!(request.from.is_empty());
}

#[test]
fn empty_list_of_names_still_counts_as_names() {
    let request = moved(play(
        &args(Some(vec![]), Some("x"), false),
        vec![AdvanceEvent::Begin, AdvanceEvent::Done],
    ));
    assert_eq!(request.names, Some(vec![]));
    assert!(request.from.is_empty());
}

#[test]
fn unresolved_default_target_comes_with_a_hint() {
    let action = play(
        &args(None, None, false),
        vec![
            AdvanceEvent::Begin,
            AdvanceEvent::Setting("none()".to_owned()),
            AdvanceEvent::Failed("no revision"),
        ],
    );
    match action {
        AdvanceAction::Return(Err(Failure::Command(error))) => {
            assert_eq!(error.kind, CommandErrorKind::User);
            assert_eq!(error.message, "No suitable revision to advance to.");
            assert_eq!(
                error.hints,
                vec![
                    "`revsets.advance-default-to` controls the default target. You can also \
                     specify a specific target with `--to`."
                        .to_owned()
                ]
            );
        }
        other => panic!("no error of the command: {other:?}"),
    }
}

#[test]
fn unresolved_given_target_comes_without_a_hint() {
    let action = play(
        &args(None, Some("nowhere"), false),
        vec![AdvanceEvent::Begin, AdvanceEvent::Failed("no revision")],
    );
    match action {
        AdvanceAction::Return(Err(Failure::Command(error))) => {
            assert_eq!(error.message, "No suitable revision to advance to.");
            assert!(error.hints.is_empty());
        }
        other => panic!("no error of the command: {other:?}"),
    }
}

#[test]
fn errors_of_the_host_are_passed_on() {
    let unopened = play(&args(None, None, false), vec![AdvanceEvent::Failed("closed")]);
    assert!(matches!(unopened, AdvanceAction::Return(Err(Failure::Host("closed")))));
    let unset = play(
        &args(None, None, false),
        vec![AdvanceEvent::Begin, AdvanceEvent::Failed("unset")],
    );
    assert!(matches!(unset, AdvanceAction::Return(Err(Failure::Host("unset")))));
    let unmoved = play(
        &args(None, Some("x"), false),
        vec![AdvanceEvent::Begin, AdvanceEvent::Done, AdvanceEvent::Failed("refused")],
    );
    assert!(matches!(unmoved, AdvanceAction::Return(Err(Failure::Host("refused")))));
}

#[test]
fn advance_ends_with_the_move() {
    let events = vec![AdvanceEvent::Begin, AdvanceEvent::Done, AdvanceEvent::Done];
    let action = play(&args(None, Some("x"), false), events);
    assert!(matches!(action, AdvanceAction::Return(Ok(()))));
}

#[test]
fn stray_events_are_ignored_by_advance() {
    let action = play(&args(None, Some("x"), false), vec![AdvanceEvent::Done]);
    assert!(matches!(action, AdvanceAction::Nothing));
    let events = vec![AdvanceEvent::Begin, AdvanceEvent::Begin];
    let action = play(&args(None, Some("x"), false), events);
    assert!(matches!(action, AdvanceAction::Nothing));
}
