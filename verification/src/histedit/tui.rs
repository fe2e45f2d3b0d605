//! The loop of the history editor.

use vstd::prelude::*;

use crate::error::CommandError;
use crate::error::CommandErrorKind;
use crate::error::CommandErrorView;
use crate::error::internal_error;
use crate::error::plain_error;
use crate::histedit::styled::color_view;

verus! {

/// A piece of the line of help.
#[derive(Debug)]
pub struct HelpSpan {
    pub text: String,
    /// The color of the piece, by the name that `ratatui` has for it. Without
    /// one it looks as text does.
    pub color: Option<String>,
}

/// What [`HelpSpan`] stands for.
#[verifier::ext_equal]
pub struct HelpSpanView {
    pub text: Seq<char>,
    pub color: Option<Seq<char>>,
}

impl View for HelpSpan {
    type V = HelpSpanView;

    open spec fn view(&self) -> HelpSpanView {
        HelpSpanView { text: self.text@, color: color_view(self.color) }
    }
}

/// What a list of pieces stands for.
pub open spec fn span_views(list: Seq<HelpSpan>) -> Seq<HelpSpanView> {
    list.map_values(|span: HelpSpan| span@)
}

/// The line of help for keys and what they do: each key in magenta, with its
/// meaning behind it, and a space between one and the next.
pub open spec fn help_spans(items: Seq<(Seq<char>, Seq<char>)>) -> Seq<HelpSpanView>
    decreases items.len(),
{
    if items.len() == 0 {
        Seq::empty()
    } else {
        let front = help_spans(items.drop_last());
        let apart = if items.len() > 1 {
            front.push(HelpSpanView { text: " "@, color: None })
        } else {
            front
        };
        apart.push(HelpSpanView { text: items.last().0, color: Some("Magenta"@) }).push(
            HelpSpanView { text: " "@ + items.last().1, color: None },
        )
    }
}

/// The texts that pairs of strings stand for.
pub open spec fn item_views(items: Seq<(String, String)>) -> Seq<(Seq<char>, Seq<char>)> {
    items.map_values(|item: (String, String)| (item.0@, item.1@))
}

/// Writes a line of help for keys and what they do.
pub fn help_for(items: &Vec<(String, String)>) -> (spans: Vec<HelpSpan>)
    ensures
        span_views(spans@) == help_spans(item_views(items@)),
{
    let ghost all = item_views(items@);
    let mut spans: Vec<HelpSpan> = Vec::new();
    let mut i: usize = 0;
    assert(all.take(0) =~= Seq::<(Seq<char>, Seq<char>)>::empty());
    assert(span_views(spans@) =~= help_spans(all.take(0)));
    while i < items.len()
        invariant
            i <= items.len(),
            all == item_views(items@),
            span_views(spans@) == help_spans(all.take(i as int)),
        decreases items.len() - i,
    {
        let ghost front = span_views(spans@);
        let item: &(String, String) = &items[i];
        if i > 0 {
            spans.push(HelpSpan { text: " ".to_owned(), color: None });
        }
        spans.push(HelpSpan { text: item.0.clone(), color: Some("Magenta".to_owned()) });
        let mut meaning = " ".to_owned();
        meaning.append(item.1.as_str());
        spans.push(HelpSpan { text: meaning, color: None });
        proof {
            let more = all.take(i + 1);
            assert(more.drop_last() =~= all.take(i as int));
            assert(more.last() == (item.0@, item.1@));
            assert(span_views(spans@) =~= help_spans(more));
        }
        i += 1;
    }
    assert(all.take(i as int) =~= all);
    spans
}

/// The line of help of the history editor.
pub fn help_line() -> (spans: Vec<HelpSpan>)
    ensures
        span_views(spans@) == help_spans(seq![("q"@, "quit"@)]),
{
    let mut items: Vec<(String, String)> = Vec::new();
    items.push(("q".to_owned(), "quit".to_owned()));
    assert(item_views(items@) =~= seq![("q"@, "quit"@)]);
    help_for(&items)
}

/// A key on the keyboard.
#[derive(Clone, Copy, Debug, PartialEq, Eq, Structural)]
pub enum KeyCode {
    Char(char),
    Other,
}

/// What the terminal reports to the editor.
#[derive(Debug)]
pub enum TuiEvent {
    /// The editor has been started.
    Started,
    /// The screen has been drawn.
    Drawn,
    /// The screen could not be drawn, for this reason.
    DrawFailed(String),
    /// Whether there is input to read.
    Polled(bool),
    /// It could not be found out whether there is input, for this reason.
    PollFailed(String),
    /// A key was pressed. `modifiers` has a bit set for each modifier held.
    Key { code: KeyCode, modifiers: u8 },
    /// There was input other than from a key.
    OtherInput,
    /// The input could not be read, for this reason.
    ReadFailed(String),
}

/// What [`TuiEvent`] stands for.
#[verifier::ext_equal]
pub enum TuiEventView {
    Started,
    Drawn,
    DrawFailed(Seq<char>),
    Polled(bool),
    PollFailed(Seq<char>),
    Key { code: KeyCode, modifiers: u8 },
    OtherInput,
    ReadFailed(Seq<char>),
}

impl View for TuiEvent {
    type V = TuiEventView;

    open spec fn view(&self) -> TuiEventView {
        match self {
            TuiEvent::Started => TuiEventView::Started,
            TuiEvent::Drawn => TuiEventView::Drawn,
            TuiEvent::DrawFailed(reason) => TuiEventView::DrawFailed(reason@),
            TuiEvent::Polled(ready) => TuiEventView::Polled(*ready),
            TuiEvent::PollFailed(reason) => TuiEventView::PollFailed(reason@),
            TuiEvent::Key { code, modifiers } => TuiEventView::Key {
                code: *code,
                modifiers: *modifiers,
            },
            TuiEvent::OtherInput => TuiEventView::OtherInput,
            TuiEvent::ReadFailed(reason) => TuiEventView::ReadFailed(reason@),
        }
    }
}

/// What the editor asks of the terminal.
#[derive(Debug)]
pub enum TuiAction {
    /// Draw the screen.
    Draw,
    /// Wait for input, for so many milliseconds at most.
    Poll(u64),
    /// Read input.
    Read,
    /// End the editor.
    Return(Result<(), CommandError>),
}

/// What [`TuiAction`] stands for.
#[verifier::ext_equal]
pub enum TuiActionView {
    Draw,
    Poll(u64),
    Read,
    Return(Result<(), CommandErrorView>),
}

impl View for TuiAction {
    type V = TuiActionView;

    open spec fn view(&self) -> TuiActionView {
        match self {
            TuiAction::Draw => TuiActionView::Draw,
            TuiAction::Poll(millis) => TuiActionView::Poll(*millis),
            TuiAction::Read => TuiActionView::Read,
            TuiAction::Return(Ok(_)) => TuiActionView::Return(Ok(())),
            TuiAction::Return(Err(error)) => TuiActionView::Return(Err(error@)),
        }
    }
}

/// The end of the editor over a failure of the terminal.
pub open spec fn broken(what: Seq<char>, reason: Seq<char>) -> TuiActionView {
    TuiActionView::Return(Err(plain_error(CommandErrorKind::Internal, what + reason)))
}

/// What the editor does on an event: it draws and waits for input in turns,
/// until the key `q` is pressed without a modifier.
pub open spec fn tui_step(event: TuiEventView) -> TuiActionView {
    match event {
        TuiEventView::Started => TuiActionView::Draw,
        TuiEventView::Drawn => TuiActionView::Poll(100),
        TuiEventView::DrawFailed(reason) => broken("Failed to draw TUI: "@, reason),
        TuiEventView::Polled(ready) => if ready {
            TuiActionView::Read
        } else {
            TuiActionView::Draw
        },
        TuiEventView::PollFailed(reason) => broken("Failed to poll for TUI events: "@, reason),
        TuiEventView::Key { code, modifiers } => if code == KeyCode::Char('q') && modifiers == 0 {
            TuiActionView::Return(Ok(()))
        } else {
            TuiActionView::Draw
        },
        TuiEventView::OtherInput => TuiActionView::Draw,
        TuiEventView::ReadFailed(reason) => broken("Failed to read TUI events: "@, reason),
    }
}

/// Runs the editor: takes one step, from what the terminal reports to what it
/// is asked for next.
pub fn run_tui(event: TuiEvent) -> (action: TuiAction)
    ensures
        action@ == tui_step(event@),
{
    match event {
        TuiEvent::Started => TuiAction::Draw,
        TuiEvent::Drawn => TuiAction::Poll(100),
        TuiEvent::DrawFailed(reason) => give_up("Failed to draw TUI: ", reason),
        TuiEvent::Polled(ready) => if ready {
            TuiAction::Read
        } else {
            TuiAction::Draw
        },
        TuiEvent::PollFailed(reason) => give_up("Failed to poll for TUI events: ", reason),
        TuiEvent::Key { code, modifiers } => match code {
            KeyCode::Char('q') if modifiers == 0 => TuiAction::Return(Ok(())),
            _ => TuiAction::Draw,
        },
        TuiEvent::OtherInput => TuiAction::Draw,
        TuiEvent::ReadFailed(reason) => give_up("Failed to read TUI events: ", reason),
    }
}

fn give_up(what: &str, reason: String) -> (action: TuiAction)
    ensures
        action@ == broken(what@, reason@),
{
    let mut message = what.to_owned();
    message.append(reason.as_str());
    TuiAction::Return(Err(internal_error(message)))
}

/// The editor ends well on nothing but the key `q` alone.
pub proof fn law_only_q_quits(event: TuiEventView)
    ensures
        tui_step(event) == TuiActionView::Return(Ok(())) <==> event == (TuiEventView::Key {
            code: KeyCode::Char('q'),
            modifiers: 0,
        }),
{
}

/// The line of help has a key in magenta and its meaning for each item, and a
/// space between one item and the next.
pub proof fn law_help_names_every_key(items: Seq<(Seq<char>, Seq<char>)>, k: int)
    requires
        0 <= k < items.len(),
    ensures
        help_spans(items).len() == 3 * items.len() - 1,
        help_spans(items)[3 * k].text == items[k].0,
        help_spans(items)[3 * k].color == Some("Magenta"@),
        help_spans(items)[3 * k + 1].text == " "@ + items[k].1,
        help_spans(items)[3 * k + 1].color is None,
        k > 0 ==> help_spans(items)[3 * k - 1].text == " "@,
        k > 0 ==> help_spans(items)[3 * k - 1].color is None,
    decreases items.len(),
{
    let front = items.drop_last();
    if front.len() > 0 {
        law_help_names_every_key(front, if k < front.len() {
            k
        } else {
            0
        });
    } else {
        assert(help_spans(front).len() == 0);
    }
}

/// The editor draws at first and after every input, then waits a tenth of a
/// second for input, and reads it where there is any. Failures of the terminal
/// end it with an internal error that says what failed and why.
pub proof fn law_editor_draws_and_waits(event: TuiEventView)
    ensures
        tui_step(event) is Draw <==> {
            ||| event is Started
            ||| event is OtherInput
            ||| event == TuiEventView::Polled(false)
            ||| event is Key && event != (TuiEventView::Key {
                code: KeyCode::Char('q'),
                modifiers: 0,
            })
        },
        event is Drawn ==> tui_step(event) == TuiActionView::Poll(100),
        tui_step(event) is Poll ==> event is Drawn,
        tui_step(event) is Read <==> event == TuiEventView::Polled(true),
        event matches TuiEventView::DrawFailed(reason) ==> fails_with(
            event,
            "Failed to draw TUI: "@ + reason,
        ),
        event matches TuiEventView::PollFailed(reason) ==> fails_with(
            event,
            "Failed to poll for TUI events: "@ + reason,
        ),
        event matches TuiEventView::ReadFailed(reason) ==> fails_with(
            event,
            "Failed to read TUI events: "@ + reason,
        ),
{
}

/// The editor ends on the event with an internal error of this text.
pub open spec fn fails_with(event: TuiEventView, message: Seq<char>) -> bool {
    &&& tui_step(event) matches TuiActionView::Return(Err(error))
    &&& error.kind == CommandErrorKind::Internal
    &&& error.message == message
    &&& error.hints.len() == 0
}

/// Of an event and of the line of help nothing is left out of sight.
pub proof fn law_views_of_the_editor(event: TuiEvent, span: HelpSpan)
    ensures
        event matches TuiEvent::Key { code, modifiers } ==> event@ == (TuiEventView::Key {
            code,
            modifiers,
        }),
        event matches TuiEvent::Polled(ready) ==> event@ == TuiEventView::Polled(ready),
        event matches TuiEvent::DrawFailed(reason) ==> event@ == TuiEventView::DrawFailed(reason@),
        event matches TuiEvent::PollFailed(reason) ==> event@ == TuiEventView::PollFailed(reason@),
        event matches TuiEvent::ReadFailed(reason) ==> event@ == TuiEventView::ReadFailed(reason@),
        event is Started <==> event@ is Started,
        event is Drawn <==> event@ is Drawn,
        event is OtherInput <==> event@ is OtherInput,
        span@.text == span.text@,
        span@.color is Some <==> span.color is Some,
        span.color matches Some(color) ==> span@.color == Some(color@),
{
}

} // verus!
