//! The command that opens the history editor.

use vstd::prelude::*;

use crate::commit::Commit;
use crate::commit::CommitView;
use crate::commit::commit_views;
use crate::error::CommandError;
use crate::error::CommandErrorKind;
use crate::error::CommandErrorView;
use crate::error::Failure;
use crate::error::FailureView;
use crate::error::Message;
use crate::error::MessageKind;
use crate::error::MessageView;
use crate::error::Outcome;
use crate::error::outcome_view;
use crate::error::plain_error;
use crate::error::user_error;
use crate::histedit::state::State;
use crate::histedit::state::StateView;
use crate::histedit::state::fresh;
use crate::revision::RevisionArg;
use crate::revision::clone_revisions;
use crate::revision::revisions;

verus! {

/// What the user asked `histedit` for.
#[derive(Debug)]
pub struct HisteditArgs {
    /// The revisions to edit. Without any, the setting `revsets.histedit`
    /// gives them.
    pub revisions: Vec<RevisionArg>,
}

/// How far `histedit` has come.
pub enum HisteditState<E> {
    /// The workspace is being opened.
    Start,
    /// The setting with the default revisions is being read.
    ReadingDefault,
    /// The expression is being parsed.
    Parsing,
    /// The names in the expression are being looked up.
    Resolving,
    /// It is being checked that the revisions may be rewritten.
    Checking,
    /// Revisions missing between those to edit are being looked for.
    FindingGaps,
    /// Children of the revisions are being looked for.
    FindingChildren,
    /// The revisions themselves are being looked for.
    FindingTargets { children: Vec<Commit> },
    /// The terminal is being set up.
    SettingUp { targets: Vec<Commit>, children: Vec<Commit> },
    /// The editor is running.
    Editing,
    /// The terminal is being restored, after the editor ended like this.
    Restoring { outcome: Outcome<E> },
    /// The command is over.
    Finished,
}

/// What [`HisteditState`] stands for.
#[verifier::ext_equal]
pub enum HisteditStateView<E> {
    Start,
    ReadingDefault,
    Parsing,
    Resolving,
    Checking,
    FindingGaps,
    FindingChildren,
    FindingTargets { children: Seq<CommitView> },
    SettingUp { targets: Seq<CommitView>, children: Seq<CommitView> },
    Editing,
    Restoring { outcome: Result<(), FailureView<E>> },
    Finished,
}

impl<E> View for HisteditState<E> {
    type V = HisteditStateView<E>;

    open spec fn view(&self) -> HisteditStateView<E> {
        match self {
            HisteditState::Start => HisteditStateView::Start,
            HisteditState::ReadingDefault => HisteditStateView::ReadingDefault,
            HisteditState::Parsing => HisteditStateView::Parsing,
            HisteditState::Resolving => HisteditStateView::Resolving,
            HisteditState::Checking => HisteditStateView::Checking,
            HisteditState::FindingGaps => HisteditStateView::FindingGaps,
            HisteditState::FindingChildren => HisteditStateView::FindingChildren,
            HisteditState::FindingTargets { children } => HisteditStateView::FindingTargets {
                children: commit_views(children@),
            },
            HisteditState::SettingUp { targets, children } => HisteditStateView::SettingUp {
                targets: commit_views(targets@),
                children: commit_views(children@),
            },
            HisteditState::Editing => HisteditStateView::Editing,
            HisteditState::Restoring { outcome } => HisteditStateView::Restoring {
                outcome: outcome_view(*outcome),
            },
            HisteditState::Finished => HisteditStateView::Finished,
        }
    }
}

/// What the host reports to `histedit`.
pub enum HisteditEvent<E> {
    /// The workspace is open.
    Begin,
    /// The setting that was asked for has this value.
    Setting(String),
    /// The first revision that is missing, as a short hash.
    Gap(Option<String>),
    /// The commits that were asked for.
    Commits(Vec<Commit>),
    /// The editor ended.
    Ended(Outcome<E>),
    /// What was asked for is done.
    Done,
    /// What was asked for failed.
    Failed(E),
}

/// What [`HisteditEvent`] stands for.
#[verifier::ext_equal]
pub enum HisteditEventView<E> {
    Begin,
    Setting(Seq<char>),
    Gap(Option<Seq<char>>),
    Commits(Seq<CommitView>),
    Ended(Result<(), FailureView<E>>),
    Done,
    Failed(E),
}

impl<E> View for HisteditEvent<E> {
    type V = HisteditEventView<E>;

    open spec fn view(&self) -> HisteditEventView<E> {
        match self {
            HisteditEvent::Begin => HisteditEventView::Begin,
            HisteditEvent::Setting(value) => HisteditEventView::Setting(value@),
            HisteditEvent::Gap(None) => HisteditEventView::Gap(None),
            HisteditEvent::Gap(Some(hash)) => HisteditEventView::Gap(Some(hash@)),
            HisteditEvent::Commits(commits) => HisteditEventView::Commits(commit_views(commits@)),
            HisteditEvent::Ended(outcome) => HisteditEventView::Ended(outcome_view(*outcome)),
            HisteditEvent::Done => HisteditEventView::Done,
            HisteditEvent::Failed(error) => HisteditEventView::Failed(*error),
        }
    }
}

/// What `histedit` asks of the host.
pub enum HisteditAction<E> {
    /// Read the text of a setting.
    ReadSetting(String),
    /// Parse an expression for the revisions to edit.
    ParseRevset(RevisionArg),
    /// Parse expressions, the revisions to edit being those of any of them.
    ParseUnion(Vec<RevisionArg>),
    /// Look up the names in the expression.
    Resolve,
    /// Check that the revisions may be rewritten.
    CheckRewritable,
    /// Look for a revision between those to edit that is not one of them.
    FindGap,
    /// Look for the children of the revisions that are not among them.
    FindChildren,
    /// Look for the revisions.
    FindTargets,
    /// Turn to the alternate screen, turn raw mode on, and clear the terminal.
    SetUpTerminal,
    /// Run the editor on this state.
    Edit(State),
    /// Turn raw mode off, and leave the alternate screen.
    RestoreTerminal,
    /// End the command.
    Return(Outcome<E>),
    /// Nothing: the event was not one that the command waits for.
    Nothing,
}

/// What [`HisteditAction`] stands for.
#[verifier::ext_equal]
pub enum HisteditActionView<E> {
    ReadSetting(Seq<char>),
    ParseRevset(Seq<char>),
    ParseUnion(Seq<Seq<char>>),
    Resolve,
    CheckRewritable,
    FindGap,
    FindChildren,
    FindTargets,
    SetUpTerminal,
    Edit(StateView),
    RestoreTerminal,
    Return(Result<(), FailureView<E>>),
    Nothing,
}

impl<E> View for HisteditAction<E> {
    type V = HisteditActionView<E>;

    open spec fn view(&self) -> HisteditActionView<E> {
        match self {
            HisteditAction::ReadSetting(name) => HisteditActionView::ReadSetting(name@),
            HisteditAction::ParseRevset(revision) => HisteditActionView::ParseRevset(revision@),
            HisteditAction::ParseUnion(list) => HisteditActionView::ParseUnion(revisions(list@)),
            HisteditAction::Resolve => HisteditActionView::Resolve,
            HisteditAction::CheckRewritable => HisteditActionView::CheckRewritable,
            HisteditAction::FindGap => HisteditActionView::FindGap,
            HisteditAction::FindChildren => HisteditActionView::FindChildren,
            HisteditAction::FindTargets => HisteditActionView::FindTargets,
            HisteditAction::SetUpTerminal => HisteditActionView::SetUpTerminal,
            HisteditAction::Edit(state) => HisteditActionView::Edit(state@),
            HisteditAction::RestoreTerminal => HisteditActionView::RestoreTerminal,
            HisteditAction::Return(outcome) => HisteditActionView::Return(outcome_view(*outcome)),
            HisteditAction::Nothing => HisteditActionView::Nothing,
        }
    }
}

/// A step of `histedit`: the state that it goes to, what it tells the user,
/// and what it then asks of the host.
pub struct HisteditStep<E> {
    pub state: HisteditState<E>,
    pub message: Option<Message>,
    pub action: HisteditAction<E>,
}

/// What [`HisteditStep`] stands for.
#[verifier::ext_equal]
pub struct HisteditStepView<E> {
    pub state: HisteditStateView<E>,
    pub message: Option<MessageView>,
    pub action: HisteditActionView<E>,
}

impl<E> View for HisteditStep<E> {
    type V = HisteditStepView<E>;

    open spec fn view(&self) -> HisteditStepView<E> {
        HisteditStepView {
            state: self.state@,
            message: match self.message {
                Some(message) => Some(message@),
                None => None,
            },
            action: self.action@,
        }
    }
}

/// A step with nothing to say.
pub open spec fn quiet<E>(
    state: HisteditStateView<E>,
    action: HisteditActionView<E>,
) -> HisteditStepView<E> {
    HisteditStepView { state, message: None, action }
}

/// The step that ends the command.
pub open spec fn finished<E>(outcome: Result<(), FailureView<E>>) -> HisteditStepView<E> {
    quiet(HisteditStateView::Finished, HisteditActionView::Return(outcome))
}

/// The error for revisions with another one, of the given short hash, between
/// them.
pub open spec fn gap_error(hash: Seq<char>) -> CommandErrorView {
    CommandErrorView {
        hints: seq!["Revision "@ + hash + " would need to be in the set."@],
        ..plain_error(CommandErrorKind::User, "Cannot edit history of revsets with gaps in."@)
    }
}

/// What `histedit` does on an event.
pub open spec fn histedit_step<E>(
    chosen: Seq<Seq<char>>,
    state: HisteditStateView<E>,
    event: HisteditEventView<E>,
) -> HisteditStepView<E> {
    match (state, event) {
        (HisteditStateView::Start, HisteditEventView::Begin) => if chosen.len() == 0 {
            quiet(
                HisteditStateView::ReadingDefault,
                HisteditActionView::ReadSetting("revsets.histedit"@),
            )
        } else {
            quiet(HisteditStateView::Parsing, HisteditActionView::ParseUnion(chosen))
        },
        (HisteditStateView::ReadingDefault, HisteditEventView::Setting(value)) => quiet(
            HisteditStateView::Parsing,
            HisteditActionView::ParseRevset(value),
        ),
        (HisteditStateView::Parsing, HisteditEventView::Done) => quiet(
            HisteditStateView::Resolving,
            HisteditActionView::Resolve,
        ),
        (HisteditStateView::Resolving, HisteditEventView::Done) => quiet(
            HisteditStateView::Checking,
            HisteditActionView::CheckRewritable,
        ),
        (HisteditStateView::Checking, HisteditEventView::Done) => quiet(
            HisteditStateView::FindingGaps,
            HisteditActionView::FindGap,
        ),
        (HisteditStateView::FindingGaps, HisteditEventView::Gap(gap)) => match gap {
            Some(hash) => finished(Err(FailureView::Command(gap_error(hash)))),
            None => quiet(HisteditStateView::FindingChildren, HisteditActionView::FindChildren),
        },
        (HisteditStateView::FindingChildren, HisteditEventView::Commits(children)) => quiet(
            HisteditStateView::FindingTargets { children },
            HisteditActionView::FindTargets,
        ),
        (
            HisteditStateView::FindingTargets { children },
            HisteditEventView::Commits(targets),
        ) => if targets.len() == 0 {
            HisteditStepView {
                message: Some(
                    MessageView { kind: MessageKind::Status, text: "No revisions to edit."@ },
                ),
                ..finished(Ok(()))
            }
        } else {
            quiet(
                HisteditStateView::SettingUp { targets, children },
                HisteditActionView::SetUpTerminal,
            )
        },
        (HisteditStateView::SettingUp { targets, children }, HisteditEventView::Done) => quiet(
            HisteditStateView::Editing,
            HisteditActionView::Edit(fresh(targets, children)),
        ),
        (HisteditStateView::Editing, HisteditEventView::Ended(outcome)) => quiet(
            HisteditStateView::Restoring { outcome },
            HisteditActionView::RestoreTerminal,
        ),
        (HisteditStateView::Restoring { outcome }, HisteditEventView::Done) => finished(outcome),
        (_, HisteditEventView::Failed(error)) => if awaits_result(state) {
            finished(Err(FailureView::Host(error)))
        } else {
            quiet(state, HisteditActionView::Nothing)
        },
        _ => quiet(state, HisteditActionView::Nothing),
    }
}

/// The command waits for something that can fail.
pub open spec fn awaits_result<E>(state: HisteditStateView<E>) -> bool {
    match state {
        HisteditStateView::Editing => false,
        HisteditStateView::Finished => false,
        _ => true,
    }
}

fn quiet_step<E>(state: HisteditState<E>, action: HisteditAction<E>) -> (step: HisteditStep<E>)
    ensures
        step@ == quiet(state@, action@),
{
    HisteditStep { state, message: None, action }
}

fn finish<E>(outcome: Outcome<E>) -> (step: HisteditStep<E>)
    ensures
        step@ == finished(outcome_view(outcome)),
{
    quiet_step(HisteditState::Finished, HisteditAction::Return(outcome))
}

fn refuse_gap(hash: String) -> (error: CommandError)
    ensures
        error@ == gap_error(hash@),
{
    let mut hint = "Revision ".to_owned();
    hint.append(hash.as_str());
    hint.append(" would need to be in the set.");
    let error = user_error("Cannot edit history of revsets with gaps in.".to_owned()).hinted(hint);
    assert(error@.hints =~= gap_error(hash@).hints);
    error
}

/// Edits history interactively: takes one step, from what the host reports to
/// what it is asked for next.
pub fn cmd_histedit<E>(
    args: &HisteditArgs,
    state: HisteditState<E>,
    event: HisteditEvent<E>,
) -> (step: HisteditStep<E>)
    ensures
        step@ == histedit_step(revisions(args.revisions@), state@, event@),
        step.action matches HisteditAction::Edit(editor) ==> editor.wf(),
{
    match (state, event) {
        (HisteditState::Start, HisteditEvent::Begin) => if args.revisions.len() == 0 {
            quiet_step(
                HisteditState::ReadingDefault,
                HisteditAction::ReadSetting("revsets.histedit".to_owned()),
            )
        } else {
            quiet_step(
                HisteditState::Parsing,
                HisteditAction::ParseUnion(clone_revisions(&args.revisions)),
            )
        },
        (HisteditState::ReadingDefault, HisteditEvent::Setting(value)) => quiet_step(
            HisteditState::Parsing,
            HisteditAction::ParseRevset(RevisionArg::from_text(value)),
        ),
        (HisteditState::Parsing, HisteditEvent::Done) => quiet_step(
            HisteditState::Resolving,
            HisteditAction::Resolve,
        ),
        (HisteditState::Resolving, HisteditEvent::Done) => quiet_step(
            HisteditState::Checking,
            HisteditAction::CheckRewritable,
        ),
        (HisteditState::Checking, HisteditEvent::Done) => quiet_step(
            HisteditState::FindingGaps,
            HisteditAction::FindGap,
        ),
        (HisteditState::FindingGaps, HisteditEvent::Gap(gap)) => match gap {
            Some(hash) => finish(Err(Failure::Command(refuse_gap(hash)))),
            None => quiet_step(HisteditState::FindingChildren, HisteditAction::FindChildren),
        },
        (HisteditState::FindingChildren, HisteditEvent::Commits(children)) => quiet_step(
            HisteditState::FindingTargets { children },
            HisteditAction::FindTargets,
        ),
        (HisteditState::FindingTargets { children }, HisteditEvent::Commits(targets)) => {
            if targets.len() == 0 {
                HisteditStep {
                    state: HisteditState::Finished,
                    message: Some(
                        Message {
                            kind: MessageKind::Status,
                            text: "No revisions to edit.".to_owned(),
                        },
                    ),
                    action: HisteditAction::Return(Ok(())),
                }
            } else {
                quiet_step(
                    HisteditState::SettingUp { targets, children },
                    HisteditAction::SetUpTerminal,
                )
            }
        },
        (HisteditState::SettingUp { targets, children }, HisteditEvent::Done) => HisteditStep {
            state: HisteditState::Editing,
            message: None,
            action: HisteditAction::Edit(State::new(targets, children)),
        },
        (HisteditState::Editing, HisteditEvent::Ended(outcome)) => quiet_step(
            HisteditState::Restoring { outcome },
            HisteditAction::RestoreTerminal,
        ),
        (HisteditState::Restoring { outcome }, HisteditEvent::Done) => finish(outcome),
        (state, HisteditEvent::Failed(error)) => match state {
            HisteditState::Editing | HisteditState::Finished => quiet_step(
                state,
                HisteditAction::Nothing,
            ),
            _ => finish(Err(Failure::Host(error))),
        },
        (state, _) => quiet_step(state, HisteditAction::Nothing),
    }
}

/// The step that the command takes on the last event of a run.
pub open spec fn run<E>(
    chosen: Seq<Seq<char>>,
    events: Seq<HisteditEventView<E>>,
) -> HisteditStepView<E>
    decreases events.len(),
{
    if events.len() == 0 {
        quiet(HisteditStateView::Start, HisteditActionView::Nothing)
    } else {
        histedit_step(chosen, run(chosen, events.drop_last()).state, events.last())
    }
}

/// One more event is one more step.
proof fn lemma_run_step<E>(chosen: Seq<Seq<char>>, events: Seq<HisteditEventView<E>>, n: int)
    requires
        0 <= n < events.len(),
    ensures
        run(chosen, events.take(n + 1)) == histedit_step(
            chosen,
            run(chosen, events.take(n)).state,
            events[n],
        ),
{
    assert(events.take(n + 1).drop_last() =~= events.take(n));
    assert(events.take(n + 1).last() == events[n]);
}

/// How far along a state is.
spec fn phase<E>(state: HisteditStateView<E>) -> int {
    match state {
        HisteditStateView::Start => 0,
        HisteditStateView::ReadingDefault => 1,
        HisteditStateView::Parsing => 2,
        HisteditStateView::Resolving => 3,
        HisteditStateView::Checking => 4,
        HisteditStateView::FindingGaps => 5,
        HisteditStateView::FindingChildren => 6,
        HisteditStateView::FindingTargets { .. } => 7,
        HisteditStateView::SettingUp { .. } => 8,
        HisteditStateView::Editing => 9,
        HisteditStateView::Restoring { .. } => 10,
        HisteditStateView::Finished => 11,
    }
}

/// The command never goes back.
proof fn lemma_phases<E>(
    chosen: Seq<Seq<char>>,
    events: Seq<HisteditEventView<E>>,
    m: int,
    n: int,
)
    requires
        0 <= m <= n <= events.len(),
    ensures
        phase(run(chosen, events.take(m)).state) <= phase(run(chosen, events.take(n)).state),
    decreases n - m,
{
    if m < n {
        lemma_phases(chosen, events, m, n - 1);
        lemma_run_step(chosen, events, n - 1);
    }
}

/// Once the editor has been started, the command does not end before it has
/// asked for the terminal to be restored.
pub proof fn law_terminal_is_restored<E>(
    chosen: Seq<Seq<char>>,
    events: Seq<HisteditEventView<E>>,
    k: int,
    n: int,
) -> (m: int)
    requires
        0 <= k <= n <= events.len(),
        run(chosen, events.take(k)).action is Edit,
        run(chosen, events.take(n)).action is Return,
    ensures
        k < m < n,
        run(chosen, events.take(m)).action is RestoreTerminal,
{
    if k > 0 {
        lemma_run_step(chosen, events, k - 1);
    }
    assert(run(chosen, events.take(k)).state is Editing);
    lemma_run_step(chosen, events, n - 1);
    assert(k < n);
    lemma_phases(chosen, events, k, n - 1);
    lemma_restoring(chosen, events, k, n - 1)
}

proof fn lemma_restoring<E>(
    chosen: Seq<Seq<char>>,
    events: Seq<HisteditEventView<E>>,
    k: int,
    n: int,
) -> (m: int)
    requires
        0 <= k <= n <= events.len(),
        run(chosen, events.take(k)).state is Editing,
        run(chosen, events.take(n)).state is Restoring,
    ensures
        k < m <= n,
        run(chosen, events.take(m)).action is RestoreTerminal,
    decreases n - k,
{
    lemma_phases(chosen, events, k, n - 1);
    lemma_run_step(chosen, events, n - 1);
    if run(chosen, events.take(n - 1)).state is Restoring {
        lemma_restoring(chosen, events, k, n - 1)
    } else {
        n
    }
}

/// The editor's own outcome is that of the command, unless restoring the
/// terminal fails.
pub proof fn law_outcome_is_that_of_the_editor<E>(
    chosen: Seq<Seq<char>>,
    outcome: Result<(), FailureView<E>>,
    error: E,
)
    ensures
        ({
            let ended = histedit_step(
                chosen,
                HisteditStateView::Editing,
                HisteditEventView::Ended(outcome),
            );
            &&& ended.action is RestoreTerminal
            &&& histedit_step(chosen, ended.state, HisteditEventView::Done).action
                == HisteditActionView::Return(outcome)
            &&& histedit_step(chosen, ended.state, HisteditEventView::Failed(error)).action
                == HisteditActionView::<E>::Return(Err(FailureView::Host(error)))
        }),
{
}

/// Without revisions the command does as with the setting for its only one:
/// each way it asks for that expression to be parsed, and from there on the
/// two runs take the same steps.
pub proof fn law_default_is_the_only_revision<E>(
    default: Seq<char>,
    events: Seq<HisteditEventView<E>>,
)
    ensures
        ({
            let none: Seq<Seq<char>> = seq![];
            let asked = seq![HisteditEventView::<E>::Begin, HisteditEventView::Setting(default)];
            let given = seq![HisteditEventView::<E>::Begin];
            &&& run(none, asked).action == HisteditActionView::<E>::ParseRevset(default)
            &&& run(seq![default], given).action == HisteditActionView::<E>::ParseUnion(
                seq![default],
            )
            &&& run(none, asked + events).state == run(seq![default], given + events).state
            &&& events.len() > 0 ==> run(none, asked + events) == run(
                seq![default],
                given + events,
            )
        }),
{
    lemma_default_is_the_only_revision(default, events);
    let none: Seq<Seq<char>> = seq![];
    let asked = seq![HisteditEventView::<E>::Begin, HisteditEventView::Setting(default)];
    let given = seq![HisteditEventView::<E>::Begin];
    lemma_parsing(default, asked, given);
}

/// Either way the command comes to the parse of the expression.
proof fn lemma_parsing<E>(
    default: Seq<char>,
    asked: Seq<HisteditEventView<E>>,
    given: Seq<HisteditEventView<E>>,
)
    requires
        asked == seq![HisteditEventView::<E>::Begin, HisteditEventView::Setting(default)],
        given == seq![HisteditEventView::<E>::Begin],
    ensures
        run(seq![], asked) == quiet::<E>(
            HisteditStateView::Parsing,
            HisteditActionView::ParseRevset(default),
        ),
        run(seq![default], given) == quiet::<E>(
            HisteditStateView::Parsing,
            HisteditActionView::ParseUnion(seq![default]),
        ),
{
    reveal_with_fuel(run, 3);
    assert(asked.drop_last() =~= given);
    assert(given.drop_last() =~= seq![]);
}

proof fn lemma_default_is_the_only_revision<E>(
    default: Seq<char>,
    events: Seq<HisteditEventView<E>>,
)
    ensures
        ({
            let none: Seq<Seq<char>> = seq![];
            let asked = seq![HisteditEventView::<E>::Begin, HisteditEventView::Setting(default)];
            let given = seq![HisteditEventView::<E>::Begin];
            let state = run(none, asked + events).state;
            &&& state !is Start
            &&& state == run(seq![default], given + events).state
            &&& events.len() > 0 ==> run(none, asked + events) == run(
                seq![default],
                given + events,
            )
        }),
    decreases events.len(),
{
    let asked = seq![HisteditEventView::<E>::Begin, HisteditEventView::Setting(default)];
    let given = seq![HisteditEventView::<E>::Begin];
    if events.len() == 0 {
        assert(asked + events =~= asked);
        assert(given + events =~= given);
        lemma_parsing(default, asked, given);
    } else {
        let front = events.drop_last();
        lemma_default_is_the_only_revision(default, front);
        assert((asked + events).drop_last() =~= asked + front);
        assert((given + events).drop_last() =~= given + front);
    }
}

/// The editor is started only on revisions that may be rewritten: the check
/// for that went well before.
pub proof fn law_editor_gets_rewritable_revisions<E>(
    chosen: Seq<Seq<char>>,
    events: Seq<HisteditEventView<E>>,
) -> (k: int)
    requires
        run(chosen, events).action is Edit,
    ensures
        0 <= k < events.len(),
        run(chosen, events.take(k)).state is Checking,
        events[k] is Done,
{
    lemma_checked(chosen, events)
}

proof fn lemma_checked<E>(chosen: Seq<Seq<char>>, events: Seq<HisteditEventView<E>>) -> (k: int)
    requires
        phase::<E>(HisteditStateView::Checking) < phase(run(chosen, events).state) < phase::<E>(
            HisteditStateView::Finished,
        ),
    ensures
        0 <= k < events.len(),
        run(chosen, events.take(k)).state is Checking,
        events[k] is Done,
    decreases events.len(),
{
    let front = events.drop_last();
    let last = events.len() - 1;
    assert(front =~= events.take(last));
    if run(chosen, front).state is Checking {
        last
    } else {
        let k = lemma_checked(chosen, front);
        assert(front.take(k) =~= events.take(k));
        k
    }
}

/// The report at place `i` told that there is no gap, that at place `j` gave
/// the children, and that at place `k` the revisions to edit.
pub open spec fn reported<E>(
    events: Seq<HisteditEventView<E>>,
    i: int,
    j: int,
    k: int,
    targets: Seq<CommitView>,
    children: Seq<CommitView>,
) -> bool {
    &&& 0 <= i < j < k < events.len()
    &&& events[i] == HisteditEventView::<E>::Gap(None)
    &&& events[j] == HisteditEventView::<E>::Commits(children)
    &&& events[k] == HisteditEventView::<E>::Commits(targets)
}

spec fn gap_checked<E>(events: Seq<HisteditEventView<E>>, i: int) -> bool {
    0 <= i < events.len() && events[i] == HisteditEventView::<E>::Gap(None)
}

spec fn children_found<E>(
    events: Seq<HisteditEventView<E>>,
    i: int,
    j: int,
    children: Seq<CommitView>,
) -> bool {
    &&& 0 <= i < j < events.len()
    &&& events[i] == HisteditEventView::<E>::Gap(None)
    &&& events[j] == HisteditEventView::<E>::Commits(children)
}

proof fn lemma_history<E>(chosen: Seq<Seq<char>>, events: Seq<HisteditEventView<E>>)
    ensures
        match run(chosen, events).state {
            HisteditStateView::FindingChildren => exists|i: int| #[trigger] gap_checked(events, i),
            HisteditStateView::FindingTargets { children } => exists|i: int, j: int| #[trigger]
                children_found(events, i, j, children),
            HisteditStateView::SettingUp { targets, children } => targets.len() > 0 && exists|
                i: int,
                j: int,
                k: int,
            | #[trigger]
                reported(events, i, j, k, targets, children),
            _ => true,
        },
    decreases events.len(),
{
    if events.len() > 0 {
        let front = events.drop_last();
        let last = events.len() - 1;
        lemma_history(chosen, front);
        let before = run(chosen, front).state;
        match run(chosen, events).state {
            HisteditStateView::FindingChildren => {
                if before is FindingGaps {
                    assert(gap_checked(events, last));
                } else {
                    let i = choose|i: int| #[trigger] gap_checked(front, i);
                    assert(gap_checked(events, i));
                }
            },
            HisteditStateView::FindingTargets { children } => {
                if before is FindingChildren {
                    let i = choose|i: int| #[trigger] gap_checked(front, i);
                    assert(children_found(events, i, last, children));
                } else {
                    let (i, j) = choose|i: int, j: int| #[trigger]
                        children_found(front, i, j, children);
                    assert(children_found(events, i, j, children));
                }
            },
            HisteditStateView::SettingUp { targets, children } => {
                if before is FindingTargets {
                    let (i, j) = choose|i: int, j: int| #[trigger]
                        children_found(front, i, j, children);
                    assert(reported(events, i, j, last, targets, children));
                } else {
                    let (i, j, k) = choose|i: int, j: int, k: int| #[trigger]
                        reported(front, i, j, k, targets, children);
                    assert(reported(events, i, j, k, targets, children));
                }
            },
            _ => {},
        }
    }
}

/// The editor is started only on revisions without a gap, on at least one of
/// them, and on the commits that were reported.
pub proof fn law_editor_gets_the_reported_commits<E>(
    chosen: Seq<Seq<char>>,
    events: Seq<HisteditEventView<E>>,
) -> (found: (Seq<CommitView>, Seq<CommitView>))
    requires
        run(chosen, events).action is Edit,
    ensures
        run(chosen, events).action == HisteditActionView::<E>::Edit(fresh(found.0, found.1)),
        found.0.len() > 0,
        exists|i: int, j: int, k: int| #[trigger] reported(events, i, j, k, found.0, found.1),
{
    let front = events.drop_last();
    lemma_history(chosen, front);
    let before = run(chosen, front).state;
    assert(before is SettingUp);
    let targets = before->SettingUp_targets;
    let children = before->SettingUp_children;
    let (i, j, k) = choose|i: int, j: int, k: int| #[trigger]
        reported(front, i, j, k, targets, children);
    assert(reported(events, i, j, k, targets, children));
    (targets, children)
}

/// Whether the editor opens depends on nothing but whether there is a revision
/// to edit. With one the terminal is set up, and then the editor is started on
/// just those revisions and children, however few children there are. Without
/// one the user is told so, and the command ends well.
pub proof fn law_editor_opens_on_any_revision<E>(
    chosen: Seq<Seq<char>>,
    targets: Seq<CommitView>,
    children: Seq<CommitView>,
)
    ensures
        ({
            let looking = HisteditStateView::<E>::FindingTargets { children };
            let found = histedit_step(chosen, looking, HisteditEventView::Commits(targets));
            let set_up = histedit_step(chosen, found.state, HisteditEventView::Done);
            &&& found.action is SetUpTerminal <==> targets.len() > 0
            &&& targets.len() > 0 ==> {
                &&& found.message is None
                &&& found.state == HisteditStateView::<E>::SettingUp { targets, children }
                &&& set_up.action == HisteditActionView::<E>::Edit(fresh(targets, children))
                &&& set_up.message is None
                &&& set_up.state is Editing
            }
            &&& targets.len() == 0 ==> {
                &&& found.action == HisteditActionView::<E>::Return(Ok(()))
                &&& found.state is Finished
                &&& found.message matches Some(message)
                &&& message.kind == MessageKind::Status
                &&& message.text == "No revisions to edit."@
            }
        }),
{
}

/// The events of a run in which nothing fails, up to where the command knows
/// what it has to look for.
pub open spec fn parsed<E>(chosen: Seq<Seq<char>>, default: Seq<char>) -> Seq<
    HisteditEventView<E>,
> {
    if chosen.len() == 0 {
        seq![HisteditEventView::Begin, HisteditEventView::Setting(default)]
    } else {
        seq![HisteditEventView::Begin]
    }
}

/// The events of a run in which nothing fails and there is no gap, up to where
/// the terminal has been set up.
pub open spec fn good_events<E>(
    chosen: Seq<Seq<char>>,
    default: Seq<char>,
    targets: Seq<CommitView>,
    children: Seq<CommitView>,
) -> Seq<HisteditEventView<E>> {
    parsed::<E>(chosen, default).push(HisteditEventView::Done).push(HisteditEventView::Done).push(
        HisteditEventView::Done,
    ).push(HisteditEventView::Gap(None)).push(HisteditEventView::Commits(children)).push(
        HisteditEventView::Commits(targets),
    ).push(HisteditEventView::Done)
}

proof fn lemma_run_push<E>(
    chosen: Seq<Seq<char>>,
    events: Seq<HisteditEventView<E>>,
    event: HisteditEventView<E>,
)
    ensures
        run(chosen, events.push(event)) == histedit_step(chosen, run(chosen, events).state, event),
{
    assert(events.push(event).drop_last() =~= events);
}

/// The command asks for the revisions that were chosen, or for those of the
/// setting, resolves them, checks them, and looks for gaps, for children and
/// for the revisions, in this order.
pub proof fn law_questions_come_in_order<E>(
    chosen: Seq<Seq<char>>,
    default: Seq<char>,
    targets: Seq<CommitView>,
    children: Seq<CommitView>,
)
    ensures
        ({
            let opened = seq![HisteditEventView::<E>::Begin];
            let events = good_events::<E>(chosen, default, targets, children);
            let n = parsed::<E>(chosen, default).len() as int;
            &&& chosen.len() == 0 ==> run(chosen, opened).action == HisteditActionView::<
                E,
            >::ReadSetting("revsets.histedit"@)
            &&& run(chosen, events.take(n)).action == if chosen.len() == 0 {
                HisteditActionView::<E>::ParseRevset(default)
            } else {
                HisteditActionView::<E>::ParseUnion(chosen)
            }
            &&& run(chosen, events.take(n + 1)).action is Resolve
            &&& run(chosen, events.take(n + 2)).action is CheckRewritable
            &&& run(chosen, events.take(n + 3)).action is FindGap
            &&& run(chosen, events.take(n + 4)).action is FindChildren
            &&& run(chosen, events.take(n + 5)).action is FindTargets
            &&& forall|k: int|
                0 <= k <= n + 5 ==> (#[trigger] run(chosen, events.take(k))).message is None
        }),
{
    lemma_good_run::<E>(chosen, default, targets, children);
    let events = good_events::<E>(chosen, default, targets, children);
    let n = parsed::<E>(chosen, default).len() as int;
    assert forall|k: int| 0 <= k <= n + 5 implies (#[trigger] run(
        chosen,
        events.take(k),
    )).message is None by {
        if k > 0 {
            lemma_run_step(chosen, events, k - 1);
            if k <= n {
                assert(events[k - 1] == parsed::<E>(chosen, default)[k - 1]);
            }
        }
    }
}

/// Where nothing fails, there is no gap and there is a revision to edit, the
/// command comes to the editor, on the revisions and children that were
/// reported, and its end is the editor's.
pub proof fn law_good_runs_reach_the_editor<E>(
    chosen: Seq<Seq<char>>,
    default: Seq<char>,
    targets: Seq<CommitView>,
    children: Seq<CommitView>,
    outcome: Result<(), FailureView<E>>,
)
    requires
        targets.len() > 0,
    ensures
        ({
            let events = good_events::<E>(chosen, default, targets, children);
            let ended = events.push(HisteditEventView::Ended(outcome));
            &&& run(chosen, events).action == HisteditActionView::<E>::Edit(
                fresh(targets, children),
            )
            &&& run(chosen, ended).action is RestoreTerminal
            &&& run(chosen, ended.push(HisteditEventView::Done)).action
                == HisteditActionView::Return(outcome)
        }),
{
    lemma_good_run::<E>(chosen, default, targets, children);
    let events = good_events::<E>(chosen, default, targets, children);
    let ended = events.push(HisteditEventView::Ended(outcome));
    let n = parsed::<E>(chosen, default).len() as int;
    assert(events.take(n + 7) =~= events);
    lemma_run_push(chosen, events, HisteditEventView::Ended(outcome));
    lemma_run_push(chosen, ended, HisteditEventView::Done);
}

/// Where the command stands in the course of a good run.
proof fn lemma_good_run<E>(
    chosen: Seq<Seq<char>>,
    default: Seq<char>,
    targets: Seq<CommitView>,
    children: Seq<CommitView>,
)
    ensures
        ({
            let opened = seq![HisteditEventView::<E>::Begin];
            let events = good_events::<E>(chosen, default, targets, children);
            let n = parsed::<E>(chosen, default).len() as int;
            let parse = if chosen.len() == 0 {
                HisteditActionView::<E>::ParseRevset(default)
            } else {
                HisteditActionView::<E>::ParseUnion(chosen)
            };
            let looking = HisteditStateView::<E>::FindingTargets { children };
            &&& chosen.len() == 0 ==> run(chosen, opened).action == HisteditActionView::<
                E,
            >::ReadSetting("revsets.histedit"@)
            &&& events.len() == n + 7
            &&& run(chosen, events.take(n)) == quiet(HisteditStateView::Parsing, parse)
            &&& run(chosen, events.take(n + 1)) == quiet::<E>(
                HisteditStateView::Resolving,
                HisteditActionView::Resolve,
            )
            &&& run(chosen, events.take(n + 2)) == quiet::<E>(
                HisteditStateView::Checking,
                HisteditActionView::CheckRewritable,
            )
            &&& run(chosen, events.take(n + 3)) == quiet::<E>(
                HisteditStateView::FindingGaps,
                HisteditActionView::FindGap,
            )
            &&& run(chosen, events.take(n + 4)) == quiet::<E>(
                HisteditStateView::FindingChildren,
                HisteditActionView::FindChildren,
            )
            &&& run(chosen, events.take(n + 5)) == quiet::<E>(
                looking,
                HisteditActionView::FindTargets,
            )
            &&& targets.len() > 0 ==> run(chosen, events.take(n + 6)).state
                == HisteditStateView::<E>::SettingUp { targets, children }
            &&& targets.len() > 0 ==> run(chosen, events.take(n + 7)) == quiet(
                HisteditStateView::Editing,
                HisteditActionView::<E>::Edit(fresh(targets, children)),
            )
        }),
{
    let events = good_events::<E>(chosen, default, targets, children);
    let start = parsed::<E>(chosen, default);
    let opened = seq![HisteditEventView::<E>::Begin];
    let n = start.len() as int;
    assert(events.take(n) =~= start);
    assert(run(chosen, Seq::<HisteditEventView<E>>::empty()).state is Start);
    lemma_run_push(chosen, Seq::empty(), HisteditEventView::<E>::Begin);
    assert(Seq::empty().push(HisteditEventView::<E>::Begin) =~= opened);
    if chosen.len() == 0 {
        lemma_run_push(chosen, opened, HisteditEventView::Setting(default));
        assert(opened.push(HisteditEventView::Setting(default)) =~= start);
    }
    lemma_run_step(chosen, events, n);
    lemma_run_step(chosen, events, n + 1);
    lemma_run_step(chosen, events, n + 2);
    lemma_run_step(chosen, events, n + 3);
    lemma_run_step(chosen, events, n + 4);
    lemma_run_step(chosen, events, n + 5);
    lemma_run_step(chosen, events, n + 6);
}

/// Any gap is refused, with an error of the user that names the revision which
/// is missing.
pub proof fn law_gaps_are_refused<E>(chosen: Seq<Seq<char>>, hash: Seq<char>)
    ensures
        ({
            let looking = HisteditStateView::<E>::FindingGaps;
            let step = histedit_step(chosen, looking, HisteditEventView::Gap(Some(hash)));
            &&& step.state is Finished
            &&& step.message is None
            &&& step.action matches HisteditActionView::Return(Err(FailureView::Command(error)))
            &&& error.kind == CommandErrorKind::User
            &&& error.message == "Cannot edit history of revsets with gaps in."@
            &&& error.hints.len() == 1
            &&& error.hints[0] == "Revision "@ + hash + " would need to be in the set."@
        }),
{
}

/// A failure ends the command with the host's error, wherever it waits for
/// something that can fail: everywhere but in the editor and after the end.
pub proof fn law_failures_of_histedit<E>(
    chosen: Seq<Seq<char>>,
    state: HisteditStateView<E>,
    error: E,
)
    requires
        !(state is Editing),
        !(state is Finished),
    ensures
        ({
            let step = histedit_step(chosen, state, HisteditEventView::Failed(error));
            &&& step.action == HisteditActionView::<E>::Return(Err(FailureView::Host(error)))
            &&& step.state is Finished
            &&& step.message is None
        }),
{
}

/// An event that the command does not wait for changes nothing, and nothing is
/// asked for or said on it.
pub proof fn law_stray_events_of_histedit<E>(
    chosen: Seq<Seq<char>>,
    state: HisteditStateView<E>,
    event: HisteditEventView<E>,
)
    requires
        event is Begin ==> !(state is Start),
        event is Setting ==> !(state is ReadingDefault),
        event is Gap ==> !(state is FindingGaps),
        event is Commits ==> !(state is FindingChildren) && !(state is FindingTargets),
        event is Ended ==> !(state is Editing),
        event is Done ==> state is Start || state is ReadingDefault || state is FindingGaps
            || state is FindingChildren || state is FindingTargets || state is Editing
            || state is Finished,
        event is Failed ==> state is Editing || state is Finished,
    ensures
        ({
            let step = histedit_step(chosen, state, event);
            &&& step.state == state
            &&& step.message is None
            &&& step.action is Nothing
        }),
{
}

/// What the host reports and what it is asked for are seen as they are.
pub proof fn law_views_of_histedit<E>(event: HisteditEvent<E>, action: HisteditAction<E>)
    ensures
        event is Begin <==> event@ is Begin,
        event matches HisteditEvent::Setting(value) ==> event@ == HisteditEventView::<E>::Setting(
            value@,
        ),
        event matches HisteditEvent::Gap(Some(hash)) ==> event@ == HisteditEventView::<E>::Gap(
            Some(hash@),
        ),
        event matches HisteditEvent::Gap(None) ==> event@ == HisteditEventView::<E>::Gap(None),
        event matches HisteditEvent::Commits(commits) ==> event@ == HisteditEventView::<
            E,
        >::Commits(commit_views(commits@)),
        event matches HisteditEvent::Ended(Ok(_)) ==> event@ == HisteditEventView::<E>::Ended(
            Ok(()),
        ),
        event matches HisteditEvent::Ended(Err(failure)) ==> event@ == HisteditEventView::<
            E,
        >::Ended(Err(failure@)),
        event is Done <==> event@ is Done,
        event matches HisteditEvent::Failed(error) ==> event@ == HisteditEventView::Failed(error),
        action matches HisteditAction::ReadSetting(name) ==> action@ == HisteditActionView::<
            E,
        >::ReadSetting(name@),
        action matches HisteditAction::ParseRevset(revision) ==> action@ == HisteditActionView::<
            E,
        >::ParseRevset(revision.text@),
        action matches HisteditAction::ParseUnion(list) ==> action@ == HisteditActionView::<
            E,
        >::ParseUnion(revisions(list@)),
        action is Resolve <==> action@ is Resolve,
        action is CheckRewritable <==> action@ is CheckRewritable,
        action is FindGap <==> action@ is FindGap,
        action is FindChildren <==> action@ is FindChildren,
        action is FindTargets <==> action@ is FindTargets,
        action is SetUpTerminal <==> action@ is SetUpTerminal,
        action matches HisteditAction::Edit(state) ==> action@ == HisteditActionView::<E>::Edit(
            state@,
        ),
        action is RestoreTerminal <==> action@ is RestoreTerminal,
        action matches HisteditAction::Return(Ok(_)) ==> action@ == HisteditActionView::<
            E,
        >::Return(Ok(())),
        action matches HisteditAction::Return(Err(failure)) ==> action@ == HisteditActionView::<
            E,
        >::Return(Err(failure@)),
        action is Nothing <==> action@ is Nothing,
{
}

} // verus!
