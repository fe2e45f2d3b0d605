//! Advancing the closest bookmarks to a target revision.

use vstd::prelude::*;

use crate::error::CommandErrorKind;
use crate::error::CommandErrorView;
use crate::error::CommandError;
use crate::error::Failure;
use crate::error::FailureView;
use crate::error::Outcome;
use crate::error::outcome_view;
use crate::error::plain_error;
use crate::error::user_error;
use crate::revision::RevisionArg;
use crate::revision::revisions;
use crate::text::clone_texts;
use crate::text::texts;

verus! {

/// What the user asked `bookmark advance` for.
///
/// Without a target, the setting `revsets.advance-default-to` gives it.
/// Without names, the bookmarks that are advanced are those that
/// `closest_bookmarks(to)` names.
#[derive(Debug)]
pub struct BookmarkAdvanceArgs {
    /// Patterns of the names of the bookmarks to move.
    pub names: Option<Vec<String>>,
    /// The revision to move them to.
    pub to: Option<RevisionArg>,
    /// Whether bookmarks may move backwards or sideways.
    pub allow_backwards: bool,
}

/// What `bookmark move` is asked for.
#[derive(Debug)]
pub struct BookmarkMoveArgs {
    /// Patterns of the names of the bookmarks to move.
    pub names: Option<Vec<String>>,
    /// The revisions to move bookmarks from.
    pub from: Vec<RevisionArg>,
    /// The revision to move them to.
    pub to: RevisionArg,
    /// Whether bookmarks may move backwards or sideways.
    pub allow_backwards: bool,
}

/// What [`BookmarkAdvanceArgs`] stand for.
#[verifier::ext_equal]
pub struct BookmarkAdvanceArgsView {
    pub names: Option<Seq<Seq<char>>>,
    pub to: Option<Seq<char>>,
    pub allow_backwards: bool,
}

/// What [`BookmarkMoveArgs`] stand for.
#[verifier::ext_equal]
pub struct BookmarkMoveArgsView {
    pub names: Option<Seq<Seq<char>>>,
    pub from: Seq<Seq<char>>,
    pub to: Seq<char>,
    pub allow_backwards: bool,
}

/// What a list of names that may be missing stands for.
pub open spec fn names_view(names: Option<Vec<String>>) -> Option<Seq<Seq<char>>> {
    match names {
        Some(list) => Some(texts(list@)),
        None => None,
    }
}

impl View for BookmarkAdvanceArgs {
    type V = BookmarkAdvanceArgsView;

    open spec fn view(&self) -> BookmarkAdvanceArgsView {
        BookmarkAdvanceArgsView {
            names: names_view(self.names),
            to: match self.to {
                Some(to) => Some(to@),
                None => None,
            },
            allow_backwards: self.allow_backwards,
        }
    }
}

impl View for BookmarkMoveArgs {
    type V = BookmarkMoveArgsView;

    open spec fn view(&self) -> BookmarkMoveArgsView {
        BookmarkMoveArgsView {
            names: names_view(self.names),
            from: revisions(self.from@),
            to: self.to@,
            allow_backwards: self.allow_backwards,
        }
    }
}

/// How far `bookmark advance` has come.
#[derive(Debug)]
pub enum AdvanceState {
    /// The workspace is being opened.
    Start,
    /// The setting with the default target is being read.
    ReadingDefault,
    /// The target is being looked up.
    Resolving(RevisionArg),
    /// The bookmarks are being moved.
    Moving,
    /// The command is over.
    Finished,
}

/// What [`AdvanceState`] stands for.
#[verifier::ext_equal]
pub enum AdvanceStateView {
    Start,
    ReadingDefault,
    Resolving(Seq<char>),
    Moving,
    Finished,
}

impl View for AdvanceState {
    type V = AdvanceStateView;

    open spec fn view(&self) -> AdvanceStateView {
        match self {
            AdvanceState::Start => AdvanceStateView::Start,
            AdvanceState::ReadingDefault => AdvanceStateView::ReadingDefault,
            AdvanceState::Resolving(to) => AdvanceStateView::Resolving(to@),
            AdvanceState::Moving => AdvanceStateView::Moving,
            AdvanceState::Finished => AdvanceStateView::Finished,
        }
    }
}

/// What the host reports to `bookmark advance`.
#[derive(Debug)]
pub enum AdvanceEvent<E> {
    /// The workspace is open.
    Begin,
    /// The setting that was asked for has this value.
    Setting(String),
    /// What was asked for is done.
    Done,
    /// What was asked for failed.
    Failed(E),
}

/// What [`AdvanceEvent`] stands for.
#[verifier::ext_equal]
pub enum AdvanceEventView<E> {
    Begin,
    Setting(Seq<char>),
    Done,
    Failed(E),
}

impl<E> View for AdvanceEvent<E> {
    type V = AdvanceEventView<E>;

    open spec fn view(&self) -> AdvanceEventView<E> {
        match self {
            AdvanceEvent::Begin => AdvanceEventView::Begin,
            AdvanceEvent::Setting(value) => AdvanceEventView::Setting(value@),
            AdvanceEvent::Done => AdvanceEventView::Done,
            AdvanceEvent::Failed(error) => AdvanceEventView::Failed(*error),
        }
    }
}

/// What `bookmark advance` asks of the host.
#[derive(Debug)]
pub enum AdvanceAction<E> {
    /// Read the text of a setting.
    ReadSetting(String),
    /// Make sure that an expression names a single revision.
    ResolveSingleRev(RevisionArg),
    /// Move bookmarks.
    Move(BookmarkMoveArgs),
    /// End the command.
    Return(Outcome<E>),
    /// Nothing: the event was not one that the command waits for.
    Nothing,
}

/// What [`AdvanceAction`] stands for.
#[verifier::ext_equal]
pub enum AdvanceActionView<E> {
    ReadSetting(Seq<char>),
    ResolveSingleRev(Seq<char>),
    Move(BookmarkMoveArgsView),
    Return(Result<(), FailureView<E>>),
    Nothing,
}

impl<E> View for AdvanceAction<E> {
    type V = AdvanceActionView<E>;

    open spec fn view(&self) -> AdvanceActionView<E> {
        match self {
            AdvanceAction::ReadSetting(name) => AdvanceActionView::ReadSetting(name@),
            AdvanceAction::ResolveSingleRev(to) => AdvanceActionView::ResolveSingleRev(to@),
            AdvanceAction::Move(args) => AdvanceActionView::Move(args@),
            AdvanceAction::Return(outcome) => AdvanceActionView::Return(outcome_view(*outcome)),
            AdvanceAction::Nothing => AdvanceActionView::Nothing,
        }
    }
}

/// The expression for the bookmarks closest to a revision.
pub open spec fn closest_bookmarks(to: Seq<char>) -> Seq<char> {
    "closest_bookmarks("@ + to + ")"@
}

/// The request that moves the bookmarks.
pub open spec fn move_request(args: BookmarkAdvanceArgsView, to: Seq<char>) -> BookmarkMoveArgsView {
    BookmarkMoveArgsView {
        names: args.names,
        from: if args.names is None {
            seq![closest_bookmarks(to)]
        } else {
            seq![]
        },
        to,
        allow_backwards: args.allow_backwards,
    }
}

/// The error for a target that names no single revision. Only the default
/// target comes with a hint.
pub open spec fn unresolved(args: BookmarkAdvanceArgsView) -> CommandErrorView {
    let error = plain_error(
        CommandErrorKind::User,
        "No suitable revision to advance to."@,
    );
    if args.to is None {
        CommandErrorView {
            hints: seq![
                "`revsets.advance-default-to` controls the default target. You can also specify a specific target with `--to`."@,
            ],
            ..error
        }
    } else {
        error
    }
}

/// What `bookmark advance` does on an event: the state that it goes to, and
/// what it asks of the host.
pub open spec fn advance_step<E>(
    args: BookmarkAdvanceArgsView,
    state: AdvanceStateView,
    event: AdvanceEventView<E>,
) -> (AdvanceStateView, AdvanceActionView<E>) {
    match (state, event) {
        (AdvanceStateView::Start, AdvanceEventView::Failed(error)) => (
            AdvanceStateView::Finished,
            AdvanceActionView::Return(Err(FailureView::Host(error))),
        ),
        (AdvanceStateView::Start, AdvanceEventView::Begin) => match args.to {
            Some(to) => (
                AdvanceStateView::Resolving(to),
                AdvanceActionView::ResolveSingleRev(to),
            ),
            None => (
                AdvanceStateView::ReadingDefault,
                AdvanceActionView::ReadSetting("revsets.advance-default-to"@),
            ),
        },
        (AdvanceStateView::ReadingDefault, AdvanceEventView::Setting(to)) => (
            AdvanceStateView::Resolving(to),
            AdvanceActionView::ResolveSingleRev(to),
        ),
        (AdvanceStateView::ReadingDefault, AdvanceEventView::Failed(error)) => (
            AdvanceStateView::Finished,
            AdvanceActionView::Return(Err(FailureView::Host(error))),
        ),
        (AdvanceStateView::Resolving(to), AdvanceEventView::Done) => (
            AdvanceStateView::Moving,
            AdvanceActionView::Move(move_request(args, to)),
        ),
        (AdvanceStateView::Resolving(_), AdvanceEventView::Failed(_)) => (
            AdvanceStateView::Finished,
            AdvanceActionView::Return(Err(FailureView::Command(unresolved(args)))),
        ),
        (AdvanceStateView::Moving, AdvanceEventView::Done) => (
            AdvanceStateView::Finished,
            AdvanceActionView::Return(Ok(())),
        ),
        (AdvanceStateView::Moving, AdvanceEventView::Failed(error)) => (
            AdvanceStateView::Finished,
            AdvanceActionView::Return(Err(FailureView::Host(error))),
        ),
        _ => (state, AdvanceActionView::Nothing),
    }
}

/// Advances the closest bookmarks to a target revision: takes one step, from
/// what the host reports to what it is asked for next.
pub fn cmd_bookmark_advance<E>(
    args: &BookmarkAdvanceArgs,
    state: AdvanceState,
    event: AdvanceEvent<E>,
) -> (step: (AdvanceState, AdvanceAction<E>))
    ensures
        (step.0@, step.1@) == advance_step(args@, state@, event@),
{
    match (state, event) {
        (AdvanceState::Start, AdvanceEvent::Failed(error)) => (
            AdvanceState::Finished,
            AdvanceAction::Return(Err(Failure::Host(error))),
        ),
        (AdvanceState::Start, AdvanceEvent::Begin) => match &args.to {
            Some(to) => (
                AdvanceState::Resolving(to.clone()),
                AdvanceAction::ResolveSingleRev(to.clone()),
            ),
            None => (
                AdvanceState::ReadingDefault,
                AdvanceAction::ReadSetting("revsets.advance-default-to".to_owned()),
            ),
        },
        (AdvanceState::ReadingDefault, AdvanceEvent::Setting(value)) => {
            let to = RevisionArg::from_text(value);
            (AdvanceState::Resolving(to.clone()), AdvanceAction::ResolveSingleRev(to))
        },
        (AdvanceState::ReadingDefault, AdvanceEvent::Failed(error)) => (
            AdvanceState::Finished,
            AdvanceAction::Return(Err(Failure::Host(error))),
        ),
        (AdvanceState::Resolving(to), AdvanceEvent::Done) => (
            AdvanceState::Moving,
            AdvanceAction::Move(move_args(args, to)),
        ),
        (AdvanceState::Resolving(_), AdvanceEvent::Failed(_)) => (
            AdvanceState::Finished,
            AdvanceAction::Return(Err(Failure::Command(unresolved_error(args)))),
        ),
        (AdvanceState::Moving, AdvanceEvent::Done) => (
            AdvanceState::Finished,
            AdvanceAction::Return(Ok(())),
        ),
        (AdvanceState::Moving, AdvanceEvent::Failed(error)) => (
            AdvanceState::Finished,
            AdvanceAction::Return(Err(Failure::Host(error))),
        ),
        (state, _) => (state, AdvanceAction::Nothing),
    }
}

/// The request that moves the bookmarks to `to`.
fn move_args(args: &BookmarkAdvanceArgs, to: RevisionArg) -> (request: BookmarkMoveArgs)
    ensures
        request@ == move_request(args@, to@),
{
    let mut from: Vec<RevisionArg> = Vec::new();
    let names = match &args.names {
        Some(list) => Some(clone_texts(list)),
        None => {
            let mut text = "closest_bookmarks(".to_owned();
            text.append(to.text.as_str());
            text.append(")");
            from.push(RevisionArg::from_text(text));
            None
        },
    };
    let request = BookmarkMoveArgs { names, from, to, allow_backwards: args.allow_backwards };
    assert(request@.from =~= move_request(args@, to@).from);
    request
}

/// The error for a target that names no single revision.
fn unresolved_error(args: &BookmarkAdvanceArgs) -> (error: CommandError)
    ensures
        error@ == unresolved(args@),
{
    let error = user_error("No suitable revision to advance to.".to_owned());
    if args.to.is_none() {
        let hinted = error.hinted(
            "`revsets.advance-default-to` controls the default target. You can also specify a specific target with `--to`.".to_owned(),
        );
        assert(hinted@.hints =~= unresolved(args@).hints);
        hinted
    } else {
        error
    }
}

/// What a host has to say to `bookmark advance`.
pub struct AdvanceHost<E> {
    /// Whether the workspace can be opened.
    pub opened: Result<(), E>,
    /// The setting with the default target.
    pub default_to: Result<Seq<char>, E>,
    /// Whether the target names a single revision.
    pub resolved: Result<(), E>,
    /// How moving the bookmarks goes.
    pub moved: Result<(), E>,
}

impl<E> AdvanceHost<E> {
    /// What the host reports first.
    pub open spec fn first(self) -> AdvanceEventView<E> {
        match self.opened {
            Ok(_) => AdvanceEventView::Begin,
            Err(error) => AdvanceEventView::Failed(error),
        }
    }

    /// What the host reports when it is asked for something.
    pub open spec fn reply(self, action: AdvanceActionView<E>) -> AdvanceEventView<E> {
        let done = |result: Result<(), E>|
            match result {
                Ok(_) => AdvanceEventView::Done,
                Err(error) => AdvanceEventView::Failed(error),
            };
        match action {
            AdvanceActionView::ReadSetting(_) => match self.default_to {
                Ok(value) => AdvanceEventView::Setting(value),
                Err(error) => AdvanceEventView::Failed(error),
            },
            AdvanceActionView::ResolveSingleRev(_) => done(self.resolved),
            AdvanceActionView::Move(_) => done(self.moved),
            _ => AdvanceEventView::Begin,
        }
    }
}

/// What the command asks of a host, from a state and an event on, in `steps`
/// steps at most.
pub open spec fn conversation<E>(
    args: BookmarkAdvanceArgsView,
    host: AdvanceHost<E>,
    state: AdvanceStateView,
    event: AdvanceEventView<E>,
    steps: nat,
) -> Seq<AdvanceActionView<E>>
    decreases steps,
{
    if steps == 0 {
        Seq::empty()
    } else {
        let (next, action) = advance_step(args, state, event);
        if action is Return {
            seq![action]
        } else {
            seq![action] + conversation(args, host, next, host.reply(action), (steps - 1) as nat)
        }
    }
}

/// The target of the command: the one that the user gave, or else the default.
/// It is known once the workspace is open.
pub open spec fn target<E>(args: BookmarkAdvanceArgsView, host: AdvanceHost<E>) -> Result<
    Seq<char>,
    E,
> {
    match host.opened {
        Err(error) => Err(error),
        Ok(_) => match args.to {
            Some(to) => Ok(to),
            None => host.default_to,
        },
    }
}

/// How the command ends.
pub open spec fn ending<E>(args: BookmarkAdvanceArgsView, host: AdvanceHost<E>) -> Result<
    (),
    FailureView<E>,
> {
    match target(args, host) {
        Err(error) => Err(FailureView::Host(error)),
        Ok(_) => match host.resolved {
            Err(_) => Err(FailureView::Command(unresolved(args))),
            Ok(_) => match host.moved {
                Err(error) => Err(FailureView::Host(error)),
                Ok(_) => Ok(()),
            },
        },
    }
}

/// The command comes to an end in four steps at most. It moves bookmarks only
/// to a target that names a single revision, once, and as `bookmark move` does
/// from the closest bookmarks where no names were given. The host's own errors
/// are passed on, but for that of a target that names no single revision.
#[verifier::spinoff_prover]
#[verifier::rlimit(60)]
pub proof fn law_advance_is_move_from_closest<E>(
    args: BookmarkAdvanceArgsView,
    host: AdvanceHost<E>,
)
    ensures
        ({
            let asked = conversation(
                args,
                host,
                AdvanceStateView::Start,
                host.first(),
                4,
            );
            let moves = asked.filter(|action: AdvanceActionView<E>| action is Move);
            &&& asked.len() > 0
            &&& asked.last() == AdvanceActionView::Return(ending(args, host))
            &&& match target(args, host) {
                Ok(to) => moves == if host.resolved is Ok {
                    seq![AdvanceActionView::<E>::Move(move_request(args, to))]
                } else {
                    seq![]
                },
                Err(_) => moves.len() == 0,
            }
        }),
{
    reveal_with_fuel(conversation, 5);
    let asked = conversation(args, host, AdvanceStateView::Start, host.first(), 4);
    let pred = |action: AdvanceActionView<E>| action is Move;
    let end = AdvanceActionView::Return(ending(args, host));
    let reading = AdvanceActionView::<E>::ReadSetting("revsets.advance-default-to"@);
    match target(args, host) {
        Err(_) => {
            if host.opened is Ok {
                assert(asked =~= seq![reading, end]);
            } else {
                assert(asked =~= seq![end]);
            }
            lemma_moves_none(asked);
        },
        Ok(to) => {
            let resolving = AdvanceActionView::<E>::ResolveSingleRev(to);
            let front = if args.to is None {
                seq![reading, resolving]
            } else {
                seq![resolving]
            };
            let request = AdvanceActionView::<E>::Move(move_request(args, to));
            lemma_moves_none(front);
            if host.resolved is Ok {
                assert(asked =~= front.push(request).push(end));
                front.lemma_filter_push(request, pred);
                front.push(request).lemma_filter_push(end, pred);
                assert(asked.filter(pred) =~= seq![request]);
            } else {
                assert(asked =~= front.push(end));
                front.lemma_filter_push(end, pred);
                assert(asked.filter(pred) =~= seq![]);
            }
        },
    }
}

proof fn lemma_moves_none<E>(actions: Seq<AdvanceActionView<E>>)
    requires
        forall|i: int| 0 <= i < actions.len() ==> !(#[trigger] actions[i] is Move),
    ensures
        actions.filter(|action: AdvanceActionView<E>| action is Move) == Seq::<
            AdvanceActionView<E>,
        >::empty(),
    decreases actions.len(),
{
    reveal(Seq::filter);
    if actions.len() > 0 {
        lemma_moves_none(actions.drop_last());
    }
}

/// What `bookmark advance` asks for on the last event of a run, and the state
/// that it is in then.
pub open spec fn run<E>(
    args: BookmarkAdvanceArgsView,
    events: Seq<AdvanceEventView<E>>,
) -> (AdvanceStateView, AdvanceActionView<E>)
    decreases events.len(),
{
    if events.len() == 0 {
        (AdvanceStateView::Start, AdvanceActionView::Nothing)
    } else {
        advance_step(args, run(args, events.drop_last()).0, events.last())
    }
}

/// `to` is the target: the one that the user gave, or else the value of the
/// setting, which was reported at place `k`.
pub open spec fn is_target<E>(
    args: BookmarkAdvanceArgsView,
    events: Seq<AdvanceEventView<E>>,
    k: int,
    to: Seq<char>,
) -> bool {
    match args.to {
        Some(given) => to == given,
        None => {
            &&& 0 < k < events.len()
            &&& run(args, events.take(k)).0 is ReadingDefault
            &&& events[k] == AdvanceEventView::<E>::Setting(to)
        },
    }
}

/// After the event at place `n` it was asked whether `to`, the target, names a
/// single revision.
pub open spec fn target_asked_about<E>(
    args: BookmarkAdvanceArgsView,
    events: Seq<AdvanceEventView<E>>,
    k: int,
    n: int,
    to: Seq<char>,
) -> bool {
    &&& is_target(args, events, k, to)
    &&& 0 < n <= events.len()
    &&& run(args, events.take(n)).1 == AdvanceActionView::<E>::ResolveSingleRev(to)
}

proof fn lemma_target<E>(args: BookmarkAdvanceArgsView, events: Seq<AdvanceEventView<E>>)
    ensures
        run(args, events).0 is ReadingDefault ==> args.to is None && events.len() > 0,
        run(args, events).0 matches AdvanceStateView::Resolving(to) ==> exists|k: int, n: int|
            #[trigger] target_asked_about(args, events, k, n, to),
    decreases events.len(),
{
    if events.len() > 0 {
        let front = events.drop_last();
        let last = events.len() - 1;
        lemma_target(args, front);
        assert(front =~= events.take(last));
        assert(events.take(last + 1) =~= events);
        if let AdvanceStateView::Resolving(to) = run(args, events).0 {
            if run(args, front).0 is Resolving {
                let (k, n) = choose|k: int, n: int| #[trigger]
                    target_asked_about(args, front, k, n, to);
                if args.to is None {
                    assert(front.take(k) =~= events.take(k));
                }
                assert(front.take(n) =~= events.take(n));
                assert(target_asked_about(args, events, k, n, to));
            } else {
                assert(target_asked_about(args, events, last, last + 1, to));
            }
        }
    }
}

/// Bookmarks are moved to the target that the user gave, or else to that of the
/// setting, and only once it was asked about and found to name a single
/// revision. The names and the leave to move backwards are passed on as they
/// were given. Without names the bookmarks come from the ones closest to the
/// target, and with names from anywhere.
pub proof fn law_move_is_to_the_target<E>(
    args: BookmarkAdvanceArgsView,
    events: Seq<AdvanceEventView<E>>,
    request: BookmarkMoveArgsView,
) -> (places: (int, int))
    requires
        run(args, events).1 == AdvanceActionView::<E>::Move(request),
    ensures
        target_asked_about(args, events, places.0, places.1, request.to),
        places.1 < events.len(),
        events.last() is Done,
        request.names == args.names,
        request.allow_backwards == args.allow_backwards,
        args.names is Some ==> request.from.len() == 0,
        args.names is None ==> request.from.len() == 1 && request.from[0] == "closest_bookmarks("@
            + request.to + ")"@,
{
    let front = events.drop_last();
    lemma_target(args, front);
    let to = run(args, front).0->Resolving_0;
    let (k, n) = choose|k: int, n: int| #[trigger] target_asked_about(args, front, k, n, to);
    if args.to is None {
        assert(front.take(k) =~= events.take(k));
    }
    assert(front.take(n) =~= events.take(n));
    (k, n)
}

/// With a target that names a single revision, and where nothing fails, the
/// command asks about it, moves bookmarks, and ends well. Without a given
/// target it reads the setting first.
pub proof fn law_advance_gets_done<E>(args: BookmarkAdvanceArgsView, to: Seq<char>)
    ensures
        ({
            let begin = AdvanceEventView::<E>::Begin;
            let setting = AdvanceEventView::<E>::Setting(to);
            let done = AdvanceEventView::<E>::Done;
            let opened = if args.to is None {
                seq![begin, setting]
            } else {
                seq![begin]
            };
            &&& args.to is None ==> run(args, seq![begin]).1 == AdvanceActionView::<
                E,
            >::ReadSetting("revsets.advance-default-to"@)
            &&& args.to is None || args.to == Some(to) ==> run(args, opened).1
                == AdvanceActionView::<E>::ResolveSingleRev(to)
            &&& run(args, opened.push(done)).1 is Move
            &&& run(args, opened.push(done).push(done)) == (
                AdvanceStateView::Finished,
                AdvanceActionView::<E>::Return(Ok(())),
            )
        }),
{
    reveal_with_fuel(run, 5);
    let begin = AdvanceEventView::<E>::Begin;
    let done = AdvanceEventView::<E>::Done;
    let setting = AdvanceEventView::<E>::Setting(to);
    let opened = if args.to is None {
        seq![begin, setting]
    } else {
        seq![begin]
    };
    assert(seq![begin].drop_last() =~= seq![]);
    assert(seq![begin, setting].drop_last() =~= seq![begin]);
    assert(opened.push(done).drop_last() =~= opened);
    assert(opened.push(done).push(done).drop_last() =~= opened.push(done));
}

/// A failure ends the command with the host's error. Only where the target
/// names no single revision the command has an error of its own, that of a
/// user, and hints at the setting just where the target came from there.
pub proof fn law_failures_of_advance<E>(
    args: BookmarkAdvanceArgsView,
    events: Seq<AdvanceEventView<E>>,
    error: E,
)
    ensures
        ({
            let before = run(args, events).0;
            let (after, action) = run(args, events.push(AdvanceEventView::Failed(error)));
            &&& before is Start || before is ReadingDefault || before is Moving ==> action
                == AdvanceActionView::<E>::Return(Err(FailureView::Host(error)))
            &&& before is Resolving ==> {
                &&& action matches AdvanceActionView::Return(Err(FailureView::Command(own)))
                &&& own.kind == CommandErrorKind::User
                &&& own.message == "No suitable revision to advance to."@
                &&& args.to is Some ==> own.hints.len() == 0
                &&& args.to is None ==> own.hints.len() == 1 && own.hints[0]
                    == "`revsets.advance-default-to` controls the default target. You can also specify a specific target with `--to`."@
            }
            &&& after is Finished
        }),
{
    let more = events.push(AdvanceEventView::Failed(error));
    assert(more.drop_last() =~= events);
}

/// An event that the command does not wait for changes nothing, and nothing is
/// asked for on it.
pub proof fn law_stray_events_of_advance<E>(
    args: BookmarkAdvanceArgsView,
    state: AdvanceStateView,
    event: AdvanceEventView<E>,
)
    requires
        event is Begin ==> !(state is Start),
        event is Setting ==> !(state is ReadingDefault),
        event is Done ==> !(state is Resolving) && !(state is Moving),
        event is Failed ==> state is Finished,
    ensures
        advance_step(args, state, event) == (state, AdvanceActionView::<E>::Nothing),
{
}

/// Of the arguments and the request nothing is left out of sight.
pub proof fn law_views_of_advance(args: BookmarkAdvanceArgs, request: BookmarkMoveArgs)
    ensures
        args@.allow_backwards == args.allow_backwards,
        args@.to is Some <==> args.to is Some,
        args.to matches Some(to) ==> args@.to == Some(to.text@),
        args@.names is Some <==> args.names is Some,
        args.names matches Some(list) ==> args@.names->0.len() == list@.len() && forall|i: int|
            0 <= i < list@.len() ==> (#[trigger] args@.names->0[i]) == list@[i]@,
        request@.to == request.to.text@,
        request@.allow_backwards == request.allow_backwards,
        request@.names is Some <==> request.names is Some,
        request.names matches Some(list) ==> request@.names->0.len() == list@.len() && forall|
            i: int,
        |
            0 <= i < list@.len() ==> (#[trigger] request@.names->0[i]) == list@[i]@,
        request@.from.len() == request.from@.len(),
        forall|i: int|
            0 <= i < request.from@.len() ==> (#[trigger] request@.from[i]) == request.from@[i].text@,
{
}

/// What the host reports and what it is asked for are seen as they are.
pub proof fn law_views_of_the_conversation<E>(event: AdvanceEvent<E>, action: AdvanceAction<E>)
    ensures
        event is Begin <==> event@ is Begin,
        event matches AdvanceEvent::Setting(value) ==> event@ == AdvanceEventView::<E>::Setting(
            value@,
        ),
        event is Done <==> event@ is Done,
        event matches AdvanceEvent::Failed(error) ==> event@ == AdvanceEventView::Failed(error),
        action matches AdvanceAction::ReadSetting(name) ==> action@ == AdvanceActionView::<
            E,
        >::ReadSetting(name@),
        action matches AdvanceAction::ResolveSingleRev(to) ==> action@ == AdvanceActionView::<
            E,
        >::ResolveSingleRev(to.text@),
        action matches AdvanceAction::Move(request) ==> action@ == AdvanceActionView::<E>::Move(
            request@,
        ),
        action matches AdvanceAction::Return(Ok(_)) ==> action@ == AdvanceActionView::<E>::Return(
            Ok(()),
        ),
        action matches AdvanceAction::Return(Err(Failure::Host(error))) ==> action@
            == AdvanceActionView::Return(Err(FailureView::Host(error))),
        action matches AdvanceAction::Return(Err(Failure::Command(error))) ==> action@
            == AdvanceActionView::<E>::Return(Err(FailureView::Command(error@))),
        action is Nothing <==> action@ is Nothing,
{
}

} // verus!
