//! The loop of the history editor.

use jj_commands::error::CommandErrorKind;
use jj_commands::histedit::tui::KeyCode;
use jj_commands::histedit::tui::TuiAction;
use jj_commands::histedit::tui::TuiEvent;
use jj_commands::histedit::tui::help_for;
use jj_commands::histedit::tui::help_line;
use jj_commands::histedit::tui::run_tui;

fn key(c: char, modifiers: u8) -> TuiEvent {
    TuiEvent::Key { code: KeyCode::Char(c), modifiers }
}

fn error(event: TuiEvent) -> String {
    match run_tui(event) {
        TuiAction::Return(Err(error)) => {
            assert_eq!(error.kind, CommandErrorKind::Internal);
            assert!(error.hints.is_empty());
            error.message
        }
        other => panic!("no error: {other:?}"),
    }
}

#[test]
fn help_names_the_key_to_quit() {
    let spans: Vec<(String, Option<String>)> =
        help_line().into_iter().map(|span| (span.text, span.color)).collect();
    assert_eq!(
        spans,
        vec![("q".to_owned(), Some("Magenta".to_owned())), (" quit".to_owned(), None)]
    );
}

#[test]
fn help_has_a_space_between_items() {
    let items = vec![
        ("q".to_owned(), "quit".to_owned()),
        ("?".to_owned(), "help".to_owned()),
    ];
    let spans = help_for(&items);
    let line: String = spans.iter().map(|span| span.text.as_str()).collect();
    assert_eq!(line, "q quit ? help");
    let keys: Vec<bool> = spans.iter().map(|span| span.color.is_some()).collect();
    assert_eq!(keys, vec![true, false, false, true, false]);
    assert!(help_for(&vec![]).is_empty());
}

#[test]
fn screen_is_drawn_before_input_is_awaited() {
    assert!(matches!(run_tui(TuiEvent::Started), TuiAction::Draw));
    assert!(matches!(run_tui(TuiEvent::Drawn), TuiAction::Poll(100)));
    assert!(matches!(run_tui(TuiEvent::Polled(true)), TuiAction::Read));
    assert!(matches!(run_tui(TuiEvent::Polled(false)), TuiAction::Draw));
}

#[test]
fn only_the_key_q_alone_quits() {
    assert!(matches!(run_tui(key('q', 0)), TuiAction::Return(Ok(()))));
    assert!(matches!(run_tui(key('q', 2)), TuiAction::Draw));
    assert!(matches!(run_tui(key('Q', 1)), TuiAction::Draw));
    assert!(matches!(run_tui(key('x', 0)), TuiAction::Draw));
    let other = TuiEvent::Key { code: KeyCode::Other, modifiers: 0 };
    assert!(matches!(run_tui(other), TuiAction::Draw));
    assert!(matches!(run_tui(TuiEvent::OtherInput), TuiAction::Draw));
}

#[test]
fn failures_of_the_terminal_are_internal_errors() {
    let reason = || "broken pipe".to_owned();
    assert_eq!(error(TuiEvent::DrawFailed(reason())), "Failed to draw TUI: broken pipe");
    assert_eq!(
        error(TuiEvent::PollFailed(reason())),
        "Failed to poll for TUI events: broken pipe"
    );
    assert_eq!(error(TuiEvent::ReadFailed(reason())), "Failed to read TUI events: broken pipe");
}
