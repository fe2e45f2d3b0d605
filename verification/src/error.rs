//! How a command fails, and what it says on the way.

use vstd::prelude::*;

use crate::text::texts;

verus! {

/// Who is to blame for an error.
#[derive(Clone, Copy, Debug, PartialEq, Eq, Structural)]
pub enum CommandErrorKind {
    User,
    Internal,
}

/// An error of a command, with hints on what to do about it.
#[derive(Debug)]
pub struct CommandError {
    pub kind: CommandErrorKind,
    pub message: String,
    pub hints: Vec<String>,
}

/// What a [`CommandError`] stands for.
#[verifier::ext_equal]
pub struct CommandErrorView {
    pub kind: CommandErrorKind,
    pub message: Seq<char>,
    pub hints: Seq<Seq<char>>,
}

impl View for CommandError {
    type V = CommandErrorView;

    open spec fn view(&self) -> CommandErrorView {
        CommandErrorView {
            kind: self.kind,
            message: self.message@,
            hints: texts(self.hints@),
        }
    }
}

/// An error without hints.
pub open spec fn plain_error(kind: CommandErrorKind, message: Seq<char>) -> CommandErrorView {
    CommandErrorView { kind, message, hints: Seq::empty() }
}

/// An error that the user can do something about.
pub fn user_error(message: String) -> (error: CommandError)
    ensures
        error@ == plain_error(CommandErrorKind::User, message@),
{
    let error = CommandError { kind: CommandErrorKind::User, message, hints: Vec::new() };
    assert(error@.hints =~= Seq::<Seq<char>>::empty());
    error
}

/// An error that the user can do nothing about.
pub fn internal_error(message: String) -> (error: CommandError)
    ensures
        error@ == plain_error(CommandErrorKind::Internal, message@),
{
    let error = CommandError { kind: CommandErrorKind::Internal, message, hints: Vec::new() };
    assert(error@.hints =~= Seq::<Seq<char>>::empty());
    error
}

impl CommandError {
    /// Adds a hint.
    pub fn hinted(self, hint: String) -> (error: CommandError)
        ensures
            error@ == (CommandErrorView { hints: self@.hints.push(hint@), ..self@ }),
    {
        let CommandError { kind, message, hints } = self;
        let mut hints: Vec<String> = hints;
        hints.push(hint);
        let error = CommandError { kind, message, hints };
        assert(error@.hints =~= self@.hints.push(hint@));
        error
    }
}

/// Why a command failed: an error of its own, or one of the host that runs
/// it, which is passed on as it came.
#[derive(Debug)]
pub enum Failure<E> {
    Command(CommandError),
    Host(E),
}

/// What a [`Failure`] stands for.
#[verifier::ext_equal]
pub enum FailureView<E> {
    Command(CommandErrorView),
    Host(E),
}

impl<E> View for Failure<E> {
    type V = FailureView<E>;

    open spec fn view(&self) -> FailureView<E> {
        match self {
            Failure::Command(error) => FailureView::Command(error@),
            Failure::Host(error) => FailureView::Host(*error),
        }
    }
}

/// How a command ends.
pub type Outcome<E> = Result<(), Failure<E>>;

/// What an [`Outcome`] stands for.
pub open spec fn outcome_view<E>(outcome: Outcome<E>) -> Result<(), FailureView<E>> {
    match outcome {
        Ok(_) => Ok(()),
        Err(failure) => Err(failure@),
    }
}

/// What a message to the user is.
#[derive(Clone, Copy, Debug, PartialEq, Eq, Structural)]
pub enum MessageKind {
    Warning,
    Hint,
    Status,
}

/// A message to the user.
#[derive(Debug)]
pub struct Message {
    pub kind: MessageKind,
    pub text: String,
}

/// What a [`Message`] stands for.
#[verifier::ext_equal]
pub struct MessageView {
    pub kind: MessageKind,
    pub text: Seq<char>,
}

impl View for Message {
    type V = MessageView;

    open spec fn view(&self) -> MessageView {
        MessageView { kind: self.kind, text: self.text@ }
    }
}

/// What a list of messages stands for.
pub open spec fn message_views(list: Seq<Message>) -> Seq<MessageView> {
    list.map_values(|message: Message| message@)
}

/// What a command says stands for its kind and its text, one message for one,
/// and an error for its kind, its message and all hints.
pub proof fn law_messages_one_for_one(list: Seq<Message>, error: CommandError)
    ensures
        message_views(list).len() == list.len(),
        forall|i: int|
            0 <= i < list.len() ==> (#[trigger] message_views(list)[i]).kind == list[i].kind
                && message_views(list)[i].text == list[i].text@,
        error@.kind == error.kind,
        error@.message == error.message@,
        error@.hints.len() == error.hints@.len(),
        forall|i: int|
            0 <= i < error.hints@.len() ==> (#[trigger] error@.hints[i]) == error.hints@[i]@,
{
}

} // verus!
