//! Forgetting workspaces.

use vstd::prelude::*;

use crate::error::Failure;
use crate::error::FailureView;
use crate::error::Message;
use crate::error::MessageKind;
use crate::error::MessageView;
use crate::error::Outcome;
use crate::error::message_views;
use crate::error::outcome_view;
use crate::text;
use crate::text::joined;
use crate::text::texts;
use crate::workspace::worktree;
use crate::workspace::worktree::GitCommand;
use crate::workspace::worktree::GitCommandView;
use crate::workspace::worktree::GitOutcome;
use crate::workspace::worktree::GitOutcomeView;
use crate::workspace::worktree::GitdirLocation;
use crate::workspace::worktree::GitdirLocationView;
use crate::workspace::worktree::components;
use crate::workspace::worktree::gitlink_path;
use crate::workspace::worktree::lies_under;
use crate::workspace::worktree::location;
use crate::workspace::worktree::removal_command;
use crate::workspace::worktree::removal_report;
use crate::workspace::worktree::rooted;

verus! {

/// The name of a workspace, and the way in which it is shown to the user.
#[derive(Debug)]
pub struct WorkspaceName {
    pub name: String,
    pub symbol: String,
}

/// What [`WorkspaceName`] stands for.
#[verifier::ext_equal]
pub struct WorkspaceNameView {
    pub name: Seq<char>,
    pub symbol: Seq<char>,
}

impl View for WorkspaceName {
    type V = WorkspaceNameView;

    open spec fn view(&self) -> WorkspaceNameView {
        WorkspaceNameView { name: self.name@, symbol: self.symbol@ }
    }
}

impl Clone for WorkspaceName {
    fn clone(&self) -> (copy: WorkspaceName)
        ensures
            copy@ == self@,
    {
        WorkspaceName { name: self.name.clone(), symbol: self.symbol.clone() }
    }
}

/// What a list of names stands for.
pub open spec fn name_views(list: Seq<WorkspaceName>) -> Seq<WorkspaceNameView> {
    list.map_values(|name: WorkspaceName| name@)
}

/// What the user asked `workspace forget` for.
#[derive(Debug)]
pub struct WorkspaceForgetArgs {
    /// The workspaces to forget. Without any, it is the current one.
    pub workspaces: Vec<WorkspaceName>,
    /// Whether to remove the Git worktrees of the workspaces too.
    pub cleanup: bool,
    /// Whether to remove worktrees with uncommitted changes.
    pub force: bool,
}

/// What [`WorkspaceForgetArgs`] stand for.
#[verifier::ext_equal]
pub struct WorkspaceForgetArgsView {
    pub workspaces: Seq<WorkspaceNameView>,
    pub cleanup: bool,
    pub force: bool,
}

impl View for WorkspaceForgetArgs {
    type V = WorkspaceForgetArgsView;

    open spec fn view(&self) -> WorkspaceForgetArgsView {
        WorkspaceForgetArgsView {
            workspaces: name_views(self.workspaces@),
            cleanup: self.cleanup,
            force: self.force,
        }
    }
}

/// A worktree to remove: the place of its workspace among those that are
/// forgotten, and how its path is shown to the user.
#[derive(Debug)]
pub struct Worktree {
    pub workspace: usize,
    pub path: String,
}

/// What [`Worktree`] stands for.
#[verifier::ext_equal]
pub struct WorktreeView {
    pub workspace: int,
    pub path: Seq<char>,
}

impl View for Worktree {
    type V = WorktreeView;

    open spec fn view(&self) -> WorktreeView {
        WorktreeView { workspace: self.workspace as int, path: self.path@ }
    }
}

/// What a list of worktrees stands for.
pub open spec fn worktree_views(list: Seq<Worktree>) -> Seq<WorktreeView> {
    list.map_values(|worktree: Worktree| worktree@)
}

/// What is known of a workspace that may be a worktree.
#[derive(Debug)]
pub enum Stage {
    /// It is being looked up whether a path is stored for it.
    StoredPath,
    /// The stored path is being resolved.
    Directory,
    /// Its gitlink is being read. The path shown to the user is known.
    Gitlink(String),
    /// The directory that its gitlink names is being resolved.
    Gitdir(String),
    /// The directory of all worktrees is being resolved. That which the
    /// gitlink names is known.
    WorktreesDir(String, Vec<Vec<u8>>),
}

/// What [`Stage`] stands for.
#[verifier::ext_equal]
pub enum StageView {
    StoredPath,
    Directory,
    Gitlink(Seq<char>),
    Gitdir(Seq<char>),
    WorktreesDir(Seq<char>, Seq<Seq<u8>>),
}

impl View for Stage {
    type V = StageView;

    open spec fn view(&self) -> StageView {
        match self {
            Stage::StoredPath => StageView::StoredPath,
            Stage::Directory => StageView::Directory,
            Stage::Gitlink(path) => StageView::Gitlink(path@),
            Stage::Gitdir(path) => StageView::Gitdir(path@),
            Stage::WorktreesDir(path, gitdir) => StageView::WorktreesDir(
                path@,
                components(gitdir@),
            ),
        }
    }
}

/// How far `workspace forget` has come.
#[derive(Debug)]
pub enum ForgetState {
    /// The current workspace is being opened.
    Start,
    /// The store of workspaces is being loaded.
    LoadingStore { forget: Vec<WorkspaceName> },
    /// It is being found out whether the repository is one of Git.
    FindingBackend { forget: Vec<WorkspaceName> },
    /// The worktrees to remove are being collected.
    Collecting { forget: Vec<WorkspaceName>, at: usize, stage: Stage, worktrees: Vec<Worktree> },
    /// The setting with the executable of Git is being read.
    ReadingExecutable { forget: Vec<WorkspaceName>, worktrees: Vec<Worktree> },
    /// The workspaces are being forgotten.
    Committing { forget: Vec<WorkspaceName>, worktrees: Vec<Worktree> },
    /// The worktrees are being removed.
    Removing { forget: Vec<WorkspaceName>, worktrees: Vec<Worktree>, at: usize },
    /// The command is over.
    Finished,
}

/// What [`ForgetState`] stands for.
#[verifier::ext_equal]
pub enum ForgetStateView {
    Start,
    LoadingStore { forget: Seq<WorkspaceNameView> },
    FindingBackend { forget: Seq<WorkspaceNameView> },
    Collecting {
        forget: Seq<WorkspaceNameView>,
        at: int,
        stage: StageView,
        worktrees: Seq<WorktreeView>,
    },
    ReadingExecutable { forget: Seq<WorkspaceNameView>, worktrees: Seq<WorktreeView> },
    Committing { forget: Seq<WorkspaceNameView>, worktrees: Seq<WorktreeView> },
    Removing { forget: Seq<WorkspaceNameView>, worktrees: Seq<WorktreeView>, at: int },
    Finished,
}

impl View for ForgetState {
    type V = ForgetStateView;

    open spec fn view(&self) -> ForgetStateView {
        match self {
            ForgetState::Start => ForgetStateView::Start,
            ForgetState::LoadingStore { forget } => ForgetStateView::LoadingStore {
                forget: name_views(forget@),
            },
            ForgetState::FindingBackend { forget } => ForgetStateView::FindingBackend {
                forget: name_views(forget@),
            },
            ForgetState::Collecting { forget, at, stage, worktrees } => {
                ForgetStateView::Collecting {
                    forget: name_views(forget@),
                    at: *at as int,
                    stage: stage@,
                    worktrees: worktree_views(worktrees@),
                }
            },
            ForgetState::ReadingExecutable { forget, worktrees } => {
                ForgetStateView::ReadingExecutable {
                    forget: name_views(forget@),
                    worktrees: worktree_views(worktrees@),
                }
            },
            ForgetState::Committing { forget, worktrees } => ForgetStateView::Committing {
                forget: name_views(forget@),
                worktrees: worktree_views(worktrees@),
            },
            ForgetState::Removing { forget, worktrees, at } => ForgetStateView::Removing {
                forget: name_views(forget@),
                worktrees: worktree_views(worktrees@),
                at: *at as int,
            },
            ForgetState::Finished => ForgetStateView::Finished,
        }
    }
}

/// Worktrees are those of workspaces before place `end`, in their order.
pub open spec fn in_order(worktrees: Seq<WorktreeView>, end: int) -> bool {
    &&& forall|i: int|
        0 <= i < worktrees.len() ==> 0 <= (#[trigger] worktrees[i]).workspace < end
    &&& forall|i: int, j: int|
        0 <= i < j < worktrees.len() ==> (#[trigger] worktrees[i]).workspace < (
        #[trigger] worktrees[j]).workspace
}

impl ForgetStateView {
    /// There is something to forget, and the worktrees belong to it.
    pub open spec fn wf(self) -> bool {
        match self {
            ForgetStateView::Start => true,
            ForgetStateView::LoadingStore { forget } => forget.len() > 0,
            ForgetStateView::FindingBackend { forget } => forget.len() > 0,
            ForgetStateView::Collecting { forget, at, stage, worktrees } => {
                &&& 0 <= at < forget.len()
                &&& in_order(worktrees, at)
            },
            ForgetStateView::ReadingExecutable { forget, worktrees } => {
                &&& forget.len() > 0
                &&& in_order(worktrees, forget.len() as int)
            },
            ForgetStateView::Committing { forget, worktrees } => {
                &&& forget.len() > 0
                &&& in_order(worktrees, forget.len() as int)
            },
            ForgetStateView::Removing { forget, worktrees, at } => {
                &&& 0 <= at < worktrees.len()
                &&& in_order(worktrees, forget.len() as int)
            },
            ForgetStateView::Finished => true,
        }
    }
}

/// What the host reports to `workspace forget`.
#[derive(Debug)]
pub enum ForgetEvent<E> {
    /// The current workspace is open. These are the names of the workspaces
    /// that have a working-copy commit.
    Begin { current: WorkspaceName, known: Vec<String> },
    /// Whether what was asked for is there.
    Found(bool),
    /// The path of the workspace is a directory, shown to the user like this.
    Directory(Option<String>),
    /// What the gitlink of the workspace holds, if it can be read.
    Gitlink(Option<String>),
    /// The components of the resolved path, if there is such a directory.
    Resolved(Option<Vec<Vec<u8>>>),
    /// Git was run.
    GitRan(GitOutcome),
    /// What was asked for is done.
    Done,
    /// What was asked for failed.
    Failed(E),
}

/// What [`ForgetEvent`] stands for.
#[verifier::ext_equal]
pub enum ForgetEventView<E> {
    Begin { current: WorkspaceNameView, known: Seq<Seq<char>> },
    Found(bool),
    Directory(Option<Seq<char>>),
    Gitlink(Option<Seq<char>>),
    Resolved(Option<Seq<Seq<u8>>>),
    GitRan(GitOutcomeView),
    Done,
    Failed(E),
}

impl<E> View for ForgetEvent<E> {
    type V = ForgetEventView<E>;

    open spec fn view(&self) -> ForgetEventView<E> {
        match self {
            ForgetEvent::Begin { current, known } => ForgetEventView::Begin {
                current: current@,
                known: texts(known@),
            },
            ForgetEvent::Found(found) => ForgetEventView::Found(*found),
            ForgetEvent::Directory(None) => ForgetEventView::Directory(None),
            ForgetEvent::Directory(Some(path)) => ForgetEventView::Directory(Some(path@)),
            ForgetEvent::Gitlink(None) => ForgetEventView::Gitlink(None),
            ForgetEvent::Gitlink(Some(content)) => ForgetEventView::Gitlink(Some(content@)),
            ForgetEvent::Resolved(None) => ForgetEventView::Resolved(None),
            ForgetEvent::Resolved(Some(path)) => ForgetEventView::Resolved(Some(components(path@))),
            ForgetEvent::GitRan(outcome) => ForgetEventView::GitRan(outcome@),
            ForgetEvent::Done => ForgetEventView::Done,
            ForgetEvent::Failed(error) => ForgetEventView::Failed(*error),
        }
    }
}

/// A step of the transaction that forgets workspaces.
#[derive(Debug)]
pub enum TransactionStep {
    /// Drop the working-copy commit of a workspace.
    RemoveWcCommit(String),
    /// Drop the Git head of a workspace, so that no later workspace of the
    /// same name inherits it.
    ClearGitHead(String),
    /// Drop workspaces from the store.
    ForgetInStore(Vec<String>),
    /// Commit the transaction under a description.
    Finish(String),
}

/// What [`TransactionStep`] stands for.
#[verifier::ext_equal]
pub enum TransactionStepView {
    RemoveWcCommit(Seq<char>),
    ClearGitHead(Seq<char>),
    ForgetInStore(Seq<Seq<char>>),
    Finish(Seq<char>),
}

impl View for TransactionStep {
    type V = TransactionStepView;

    open spec fn view(&self) -> TransactionStepView {
        match self {
            TransactionStep::RemoveWcCommit(name) => TransactionStepView::RemoveWcCommit(name@),
            TransactionStep::ClearGitHead(name) => TransactionStepView::ClearGitHead(name@),
            TransactionStep::ForgetInStore(names) => TransactionStepView::ForgetInStore(
                texts(names@),
            ),
            TransactionStep::Finish(description) => TransactionStepView::Finish(description@),
        }
    }
}

/// What a list of steps stands for.
pub open spec fn transaction_views(list: Seq<TransactionStep>) -> Seq<TransactionStepView> {
    list.map_values(|step: TransactionStep| step@)
}

/// What `workspace forget` asks of the host. A workspace is given by its place
/// among those that are forgotten.
#[derive(Debug)]
pub enum ForgetAction<E> {
    /// Load the store of workspaces.
    LoadStore,
    /// Find out whether the repository is one of Git.
    FindGitBackend,
    /// Look up the path that is stored for a workspace of this name.
    FindStoredPath(usize, String),
    /// Resolve the stored path of the workspace, seen from the repository.
    ResolveDirectory(usize),
    /// Read the file `.git` in the directory of the workspace.
    ReadGitlink(usize),
    /// Resolve the directory that the gitlink of the workspace names.
    ResolveGitdir(usize, GitdirLocation),
    /// Resolve the directory `worktrees` in Git's common directory.
    ResolveWorktreesDir,
    /// Read the setting with the executable of Git.
    ReadGitExecutable,
    /// Go through a single transaction, up to the first step that fails.
    RunTransaction(Vec<TransactionStep>),
    /// Run Git on the directory of the workspace.
    RunGit(usize, GitCommand),
    /// End the command.
    Return(Outcome<E>),
    /// Nothing: the event was not one that the command waits for.
    Nothing,
}

/// What [`ForgetAction`] stands for.
#[verifier::ext_equal]
pub enum ForgetActionView<E> {
    LoadStore,
    FindGitBackend,
    FindStoredPath(int, Seq<char>),
    ResolveDirectory(int),
    ReadGitlink(int),
    ResolveGitdir(int, GitdirLocationView),
    ResolveWorktreesDir,
    ReadGitExecutable,
    RunTransaction(Seq<TransactionStepView>),
    RunGit(int, GitCommandView),
    Return(Result<(), FailureView<E>>),
    Nothing,
}

impl<E> View for ForgetAction<E> {
    type V = ForgetActionView<E>;

    open spec fn view(&self) -> ForgetActionView<E> {
        match self {
            ForgetAction::LoadStore => ForgetActionView::LoadStore,
            ForgetAction::FindGitBackend => ForgetActionView::FindGitBackend,
            ForgetAction::FindStoredPath(at, name) => ForgetActionView::FindStoredPath(
                *at as int,
                name@,
            ),
            ForgetAction::ResolveDirectory(at) => ForgetActionView::ResolveDirectory(*at as int),
            ForgetAction::ReadGitlink(at) => ForgetActionView::ReadGitlink(*at as int),
            ForgetAction::ResolveGitdir(at, location) => ForgetActionView::ResolveGitdir(
                *at as int,
                location@,
            ),
            ForgetAction::ResolveWorktreesDir => ForgetActionView::ResolveWorktreesDir,
            ForgetAction::ReadGitExecutable => ForgetActionView::ReadGitExecutable,
            ForgetAction::RunTransaction(steps) => ForgetActionView::RunTransaction(
                transaction_views(steps@),
            ),
            ForgetAction::RunGit(at, command) => ForgetActionView::RunGit(*at as int, command@),
            ForgetAction::Return(outcome) => ForgetActionView::Return(outcome_view(*outcome)),
            ForgetAction::Nothing => ForgetActionView::Nothing,
        }
    }
}

/// A step of `workspace forget`: the state that it goes to, what it tells the
/// user, and what it then asks of the host.
#[derive(Debug)]
pub struct ForgetStep<E> {
    pub state: ForgetState,
    pub messages: Vec<Message>,
    pub action: ForgetAction<E>,
}

/// What [`ForgetStep`] stands for.
#[verifier::ext_equal]
pub struct ForgetStepView<E> {
    pub state: ForgetStateView,
    pub messages: Seq<MessageView>,
    pub action: ForgetActionView<E>,
}

impl<E> View for ForgetStep<E> {
    type V = ForgetStepView<E>;

    open spec fn view(&self) -> ForgetStepView<E> {
        ForgetStepView {
            state: self.state@,
            messages: message_views(self.messages@),
            action: self.action@,
        }
    }
}

/// The workspaces that the user means: those that were named, or else the
/// current one.
pub open spec fn wanted(
    args: WorkspaceForgetArgsView,
    current: WorkspaceNameView,
) -> Seq<WorkspaceNameView> {
    if args.workspaces.len() == 0 {
        seq![current]
    } else {
        args.workspaces
    }
}

/// Those of the workspaces that have a working-copy commit.
pub open spec fn to_forget(
    wanted: Seq<WorkspaceNameView>,
    known: Seq<Seq<char>>,
) -> Seq<WorkspaceNameView> {
    wanted.filter(|workspace: WorkspaceNameView| known.contains(workspace.name))
}

/// The warning for a workspace that has no working-copy commit.
pub open spec fn no_such_workspace(workspace: WorkspaceNameView) -> MessageView {
    MessageView {
        kind: MessageKind::Warning,
        text: "No such workspace: "@ + workspace.symbol,
    }
}

/// The warnings for those of the workspaces that have no working-copy commit.
pub open spec fn missing_warnings(
    wanted: Seq<WorkspaceNameView>,
    known: Seq<Seq<char>>,
) -> Seq<MessageView> {
    wanted.filter(|workspace: WorkspaceNameView| !known.contains(workspace.name)).map_values(
        |workspace: WorkspaceNameView| no_such_workspace(workspace),
    )
}

/// The names of workspaces.
pub open spec fn names(list: Seq<WorkspaceNameView>) -> Seq<Seq<char>> {
    list.map_values(|workspace: WorkspaceNameView| workspace.name)
}

/// The names of workspaces as they are shown to the user.
pub open spec fn symbols(list: Seq<WorkspaceNameView>) -> Seq<Seq<char>> {
    list.map_values(|workspace: WorkspaceNameView| workspace.symbol)
}

/// The description of the transaction that forgets workspaces.
pub open spec fn description(forget: Seq<WorkspaceNameView>) -> Seq<char> {
    if forget.len() == 1 {
        "forget workspace "@ + forget[0].symbol
    } else {
        "forget workspaces "@ + joined(symbols(forget), ", "@)
    }
}

/// The steps that drop each workspace from the view of the repository.
pub open spec fn drop_steps(forget: Seq<WorkspaceNameView>) -> Seq<TransactionStepView>
    decreases forget.len(),
{
    if forget.len() == 0 {
        Seq::empty()
    } else {
        drop_steps(forget.drop_last()).push(
            TransactionStepView::RemoveWcCommit(forget.last().name),
        ).push(TransactionStepView::ClearGitHead(forget.last().name))
    }
}

/// The transaction that forgets workspaces, all of them at once.
pub open spec fn transaction(forget: Seq<WorkspaceNameView>) -> Seq<TransactionStepView> {
    drop_steps(forget).push(TransactionStepView::ForgetInStore(names(forget))).push(
        TransactionStepView::Finish(description(forget)),
    )
}

/// A step with nothing to say.
pub open spec fn quiet<E>(state: ForgetStateView, action: ForgetActionView<E>) -> ForgetStepView<
    E,
> {
    ForgetStepView { state, messages: seq![], action }
}

/// The step that fails with an error of the host.
pub open spec fn failed<E>(error: E) -> ForgetStepView<E> {
    quiet(ForgetStateView::Finished, ForgetActionView::Return(Err(FailureView::Host(error))))
}

/// The step that starts the transaction.
pub open spec fn commit<E>(
    forget: Seq<WorkspaceNameView>,
    worktrees: Seq<WorktreeView>,
) -> ForgetStepView<E> {
    quiet(
        ForgetStateView::Committing { forget, worktrees },
        ForgetActionView::RunTransaction(transaction(forget)),
    )
}

/// The step that turns to the workspace at place `at`, or, past the last one,
/// to the executable of Git.
pub open spec fn look_at<E>(
    forget: Seq<WorkspaceNameView>,
    at: int,
    worktrees: Seq<WorktreeView>,
) -> ForgetStepView<E> {
    if at < forget.len() {
        quiet(
            ForgetStateView::Collecting { forget, at, stage: StageView::StoredPath, worktrees },
            ForgetActionView::FindStoredPath(at, forget[at].name),
        )
    } else {
        quiet(
            ForgetStateView::ReadingExecutable { forget, worktrees },
            ForgetActionView::ReadGitExecutable,
        )
    }
}

/// The step that removes the worktree at place `at`, or, past the last one,
/// ends the command.
pub open spec fn remove<E>(
    args: WorkspaceForgetArgsView,
    forget: Seq<WorkspaceNameView>,
    worktrees: Seq<WorktreeView>,
    at: int,
    messages: Seq<MessageView>,
) -> ForgetStepView<E> {
    if at < worktrees.len() {
        ForgetStepView {
            state: ForgetStateView::Removing { forget, worktrees, at },
            messages,
            action: ForgetActionView::RunGit(
                worktrees[at].workspace,
                removal_command(args.force),
            ),
        }
    } else {
        ForgetStepView {
            state: ForgetStateView::Finished,
            messages,
            action: ForgetActionView::Return(Ok(())),
        }
    }
}

/// The first step: sort the workspaces that can be forgotten from those that
/// cannot.
pub open spec fn begin<E>(
    args: WorkspaceForgetArgsView,
    current: WorkspaceNameView,
    known: Seq<Seq<char>>,
) -> ForgetStepView<E> {
    let all = wanted(args, current);
    let forget = to_forget(all, known);
    let warnings = missing_warnings(all, known);
    if forget.len() == 0 {
        ForgetStepView {
            state: ForgetStateView::Finished,
            messages: warnings.push(
                MessageView { kind: MessageKind::Status, text: "Nothing changed."@ },
            ),
            action: ForgetActionView::Return(Ok(())),
        }
    } else {
        ForgetStepView {
            state: ForgetStateView::LoadingStore { forget },
            messages: warnings,
            action: ForgetActionView::LoadStore,
        }
    }
}

/// A step in collecting worktrees. A workspace is passed over as soon as it
/// turns out not to be a worktree of the repository.
pub open spec fn collect<E>(
    forget: Seq<WorkspaceNameView>,
    at: int,
    stage: StageView,
    worktrees: Seq<WorktreeView>,
    event: ForgetEventView<E>,
    absolute: bool,
) -> ForgetStepView<E> {
    let go_on = |stage: StageView, action: ForgetActionView<E>|
        quiet(ForgetStateView::Collecting { forget, at, stage, worktrees }, action);
    let pass_over = look_at::<E>(forget, at + 1, worktrees);
    match (stage, event) {
        (StageView::StoredPath, ForgetEventView::Found(found)) => if found {
            go_on(StageView::Directory, ForgetActionView::ResolveDirectory(at))
        } else {
            pass_over
        },
        (StageView::Directory, ForgetEventView::Directory(path)) => match path {
            Some(path) => go_on(StageView::Gitlink(path), ForgetActionView::ReadGitlink(at)),
            None => pass_over,
        },
        (StageView::Gitlink(path), ForgetEventView::Gitlink(content)) => match content {
            Some(content) => match gitlink_path(content) {
                Some(gitdir) => go_on(
                    StageView::Gitdir(path),
                    ForgetActionView::ResolveGitdir(at, location(gitdir, absolute)),
                ),
                None => pass_over,
            },
            None => pass_over,
        },
        (StageView::Gitdir(path), ForgetEventView::Resolved(gitdir)) => match gitdir {
            Some(gitdir) => go_on(
                StageView::WorktreesDir(path, gitdir),
                ForgetActionView::ResolveWorktreesDir,
            ),
            None => pass_over,
        },
        (StageView::WorktreesDir(path, gitdir), ForgetEventView::Resolved(dir)) => match dir {
            Some(dir) => if lies_under(gitdir, dir) {
                look_at(forget, at + 1, worktrees.push(WorktreeView { workspace: at, path }))
            } else {
                pass_over
            },
            None => pass_over,
        },
        _ => go_on(stage, ForgetActionView::Nothing),
    }
}

/// What `workspace forget` does on an event. `absolute` tells whether the path
/// in a gitlink that the event brings is absolute.
pub open spec fn forget_step<E>(
    args: WorkspaceForgetArgsView,
    state: ForgetStateView,
    event: ForgetEventView<E>,
    absolute: bool,
) -> ForgetStepView<E> {
    match (state, event) {
        (ForgetStateView::Start, ForgetEventView::Begin { current, known }) => begin(
            args,
            current,
            known,
        ),
        (ForgetStateView::Start, ForgetEventView::Failed(error)) => failed(error),
        (ForgetStateView::LoadingStore { forget }, ForgetEventView::Done) => if args.cleanup {
            quiet(ForgetStateView::FindingBackend { forget }, ForgetActionView::FindGitBackend)
        } else {
            commit(forget, seq![])
        },
        (ForgetStateView::LoadingStore { .. }, ForgetEventView::Failed(error)) => failed(error),
        (ForgetStateView::FindingBackend { forget }, ForgetEventView::Found(found)) => if found {
            look_at(forget, 0, seq![])
        } else {
            commit(forget, seq![])
        },
        (ForgetStateView::Collecting { forget, at, stage, worktrees }, event) => collect(
            forget,
            at,
            stage,
            worktrees,
            event,
            absolute,
        ),
        (ForgetStateView::ReadingExecutable { forget, worktrees }, ForgetEventView::Done) => commit(
            forget,
            worktrees,
        ),
        (ForgetStateView::ReadingExecutable { .. }, ForgetEventView::Failed(error)) => failed(
            error,
        ),
        (ForgetStateView::Committing { forget, worktrees }, ForgetEventView::Done) => remove(
            args,
            forget,
            worktrees,
            0,
            seq![],
        ),
        (ForgetStateView::Committing { .. }, ForgetEventView::Failed(error)) => failed(error),
        (
            ForgetStateView::Removing { forget, worktrees, at },
            ForgetEventView::GitRan(outcome),
        ) => remove(
            args,
            forget,
            worktrees,
            at + 1,
            removal_report(
                forget[worktrees[at].workspace].symbol,
                worktrees[at].path,
                args.force,
                outcome,
            ),
        ),
        _ => quiet(state, ForgetActionView::Nothing),
    }
}

/// Copies a list of names.
fn clone_names(list: &Vec<WorkspaceName>) -> (copy: Vec<WorkspaceName>)
    ensures
        name_views(copy@) == name_views(list@),
{
    let mut copy: Vec<WorkspaceName> = Vec::new();
    let mut i: usize = 0;
    while i < list.len()
        invariant
            i <= list.len(),
            copy.len() == i,
            forall|j: int| 0 <= j < i ==> (#[trigger] copy[j])@ == list[j]@,
        decreases list.len() - i,
    {
        copy.push(list[i].clone());
        i += 1;
    }
    assert(name_views(copy@) =~= name_views(list@));
    copy
}

/// Tells whether a list has the given text.
fn has_text(list: &Vec<String>, text: &String) -> (found: bool)
    ensures
        found == texts(list@).contains(text@),
{
    let mut i: usize = 0;
    while i < list.len()
        invariant
            i <= list.len(),
            forall|j: int| 0 <= j < i ==> texts(list@)[j] != text@,
        decreases list.len() - i,
    {
        if list[i] == *text {
            assert(texts(list@)[i as int] == text@);
            return true;
        }
        i += 1;
    }
    false
}

/// Sorts workspaces: those that can be forgotten, and warnings for the rest.
fn sort_workspaces(all: &Vec<WorkspaceName>, known: &Vec<String>) -> (sorted: (
    Vec<WorkspaceName>,
    Vec<Message>,
))
    ensures
        name_views(sorted.0@) == to_forget(name_views(all@), texts(known@)),
        message_views(sorted.1@) == missing_warnings(name_views(all@), texts(known@)),
{
    let ghost names = name_views(all@);
    let ghost there = |workspace: WorkspaceNameView| texts(known@).contains(workspace.name);
    let ghost missing = |workspace: WorkspaceNameView| !texts(known@).contains(workspace.name);
    let ghost warn = |workspace: WorkspaceNameView| no_such_workspace(workspace);
    let mut forget: Vec<WorkspaceName> = Vec::new();
    let mut warnings: Vec<Message> = Vec::new();
    proof {
        reveal(Seq::filter);
        assert(name_views(forget@) =~= names.take(0).filter(there));
        assert(message_views(warnings@) =~= names.take(0).filter(missing).map_values(warn));
    }
    let mut i: usize = 0;
    while i < all.len()
        invariant
            i <= all.len(),
            names == name_views(all@),
            there == (|workspace: WorkspaceNameView| texts(known@).contains(workspace.name)),
            missing == (|workspace: WorkspaceNameView| !texts(known@).contains(workspace.name)),
            warn == (|workspace: WorkspaceNameView| no_such_workspace(workspace)),
            name_views(forget@) == names.take(i as int).filter(there),
            message_views(warnings@) == names.take(i as int).filter(missing).map_values(warn),
        decreases all.len() - i,
    {
        let workspace: &WorkspaceName = &all[i];
        proof {
            let front = names.take(i as int);
            assert(names.take(i + 1) =~= front.push(workspace@));
            front.lemma_filter_push(workspace@, there);
            front.lemma_filter_push(workspace@, missing);
            front.filter(missing).lemma_push_map_commute(warn, workspace@);
        }
        if has_text(known, &workspace.name) {
            let ghost before = forget@;
            forget.push(workspace.clone());
            assert(name_views(forget@) =~= name_views(before).push(workspace@));
        } else {
            let ghost before = warnings@;
            let mut text = "No such workspace: ".to_owned();
            text.append(workspace.symbol.as_str());
            warnings.push(Message { kind: MessageKind::Warning, text });
            assert(message_views(warnings@) =~= message_views(before).push(
                no_such_workspace(workspace@),
            ));
        }
        i += 1;
    }
    assert(names.take(i as int) =~= names);
    (forget, warnings)
}

/// Describes the transaction that forgets workspaces.
fn describe(forget: &Vec<WorkspaceName>) -> (text: String)
    requires
        forget.len() > 0,
    ensures
        text@ == description(name_views(forget@)),
{
    if forget.len() == 1 {
        let mut text = "forget workspace ".to_owned();
        text.append(forget[0].symbol.as_str());
        text
    } else {
        let mut shown: Vec<String> = Vec::new();
        let mut i: usize = 0;
        while i < forget.len()
            invariant
                i <= forget.len(),
                shown.len() == i,
                forall|j: int| 0 <= j < i ==> (#[trigger] shown[j])@ == forget[j].symbol@,
            decreases forget.len() - i,
        {
            shown.push(forget[i].symbol.clone());
            i += 1;
        }
        assert(texts(shown@) =~= symbols(name_views(forget@)));
        let mut text = "forget workspaces ".to_owned();
        text.append(text::join(&shown, ", ").as_str());
        text
    }
}

/// Writes down the transaction that forgets workspaces.
pub fn plan_transaction(forget: &Vec<WorkspaceName>) -> (steps: Vec<TransactionStep>)
    requires
        forget.len() > 0,
    ensures
        transaction_views(steps@) == transaction(name_views(forget@)),
{
    let ghost all = name_views(forget@);
    let mut steps: Vec<TransactionStep> = Vec::new();
    let mut forgotten: Vec<String> = Vec::new();
    let mut i: usize = 0;
    assert(all.take(0) =~= Seq::<WorkspaceNameView>::empty());
    assert(transaction_views(steps@) =~= drop_steps(all.take(0)));
    while i < forget.len()
        invariant
            i <= forget.len(),
            all == name_views(forget@),
            transaction_views(steps@) == drop_steps(all.take(i as int)),
            forgotten.len() == i,
            forall|j: int| 0 <= j < i ==> (#[trigger] forgotten[j])@ == forget[j].name@,
        decreases forget.len() - i,
    {
        let ghost before = steps@;
        let name: &String = &forget[i].name;
        steps.push(TransactionStep::RemoveWcCommit(name.clone()));
        steps.push(TransactionStep::ClearGitHead(name.clone()));
        forgotten.push(name.clone());
        proof {
            let more = all.take(i + 1);
            assert(more.drop_last() =~= all.take(i as int));
            assert(more.last() == forget[i as int]@);
            assert(transaction_views(steps@) =~= transaction_views(before).push(
                TransactionStepView::RemoveWcCommit(name@),
            ).push(TransactionStepView::ClearGitHead(name@)));
        }
        i += 1;
    }
    let ghost before = steps@;
    proof {
        assert(all.take(i as int) =~= all);
        assert(texts(forgotten@) =~= names(all));
    }
    steps.push(TransactionStep::ForgetInStore(forgotten));
    steps.push(TransactionStep::Finish(describe(forget)));
    assert(transaction_views(steps@) =~= transaction_views(before).push(
        TransactionStepView::ForgetInStore(names(all)),
    ).push(TransactionStepView::Finish(description(all))));
    steps
}

fn quiet_step<E>(state: ForgetState, action: ForgetAction<E>) -> (step: ForgetStep<E>)
    ensures
        step@ == quiet(state@, action@),
{
    let step = ForgetStep { state, messages: Vec::new(), action };
    assert(step@.messages =~= Seq::<MessageView>::empty());
    step
}

fn fail<E>(error: E) -> (step: ForgetStep<E>)
    ensures
        step@ == failed(error),
{
    quiet_step(ForgetState::Finished, ForgetAction::Return(Err(Failure::Host(error))))
}

fn start_transaction<E>(forget: Vec<WorkspaceName>, worktrees: Vec<Worktree>) -> (step: ForgetStep<
    E,
>)
    requires
        forget.len() > 0,
    ensures
        step@ == commit::<E>(name_views(forget@), worktree_views(worktrees@)),
{
    let steps = plan_transaction(&forget);
    quiet_step(ForgetState::Committing { forget, worktrees }, ForgetAction::RunTransaction(steps))
}

fn turn_to<E>(forget: Vec<WorkspaceName>, at: usize, worktrees: Vec<Worktree>) -> (step: ForgetStep<
    E,
>)
    ensures
        step@ == look_at::<E>(name_views(forget@), at as int, worktree_views(worktrees@)),
{
    if at < forget.len() {
        let name = forget[at].name.clone();
        quiet_step(
            ForgetState::Collecting { forget, at, stage: Stage::StoredPath, worktrees },
            ForgetAction::FindStoredPath(at, name),
        )
    } else {
        quiet_step(
            ForgetState::ReadingExecutable { forget, worktrees },
            ForgetAction::ReadGitExecutable,
        )
    }
}

fn remove_next<E>(
    args: &WorkspaceForgetArgs,
    forget: Vec<WorkspaceName>,
    worktrees: Vec<Worktree>,
    at: usize,
    messages: Vec<Message>,
) -> (step: ForgetStep<E>)
    ensures
        step@ == remove::<E>(
            args@,
            name_views(forget@),
            worktree_views(worktrees@),
            at as int,
            message_views(messages@),
        ),
{
    if at < worktrees.len() {
        let workspace: usize = worktrees[at].workspace;
        ForgetStep {
            state: ForgetState::Removing { forget, worktrees, at },
            messages,
            action: ForgetAction::RunGit(workspace, worktree::remove_worktree(args.force)),
        }
    } else {
        ForgetStep {
            state: ForgetState::Finished,
            messages,
            action: ForgetAction::Return(Ok(())),
        }
    }
}

fn begin_step<E>(
    args: &WorkspaceForgetArgs,
    current: WorkspaceName,
    known: Vec<String>,
) -> (step: ForgetStep<E>)
    ensures
        step@ == begin::<E>(args@, current@, texts(known@)),
{
    let mut all: Vec<WorkspaceName> = clone_names(&args.workspaces);
    if all.len() == 0 {
        all.push(current);
    }
    assert(name_views(all@) =~= wanted(args@, current@)) by {
        assert(name_views(all@).len() == all@.len());
        assert(args@.workspaces.len() == args.workspaces@.len());
    }
    let (forget, warnings) = sort_workspaces(&all, &known);
    let mut messages: Vec<Message> = warnings;
    assert(name_views(forget@).len() == forget@.len());
    if forget.len() == 0 {
        let ghost before = messages@;
        messages.push(Message { kind: MessageKind::Status, text: "Nothing changed.".to_owned() });
        assert(message_views(messages@) =~= message_views(before).push(
            MessageView { kind: MessageKind::Status, text: "Nothing changed."@ },
        ));
        ForgetStep {
            state: ForgetState::Finished,
            messages,
            action: ForgetAction::Return(Ok(())),
        }
    } else {
        ForgetStep {
            state: ForgetState::LoadingStore { forget },
            messages,
            action: ForgetAction::LoadStore,
        }
    }
}

fn collect_step<E>(
    forget: Vec<WorkspaceName>,
    at: usize,
    stage: Stage,
    worktrees: Vec<Worktree>,
    event: ForgetEvent<E>,
    absolute: bool,
) -> (step: ForgetStep<E>)
    requires
        at < forget.len(),
    ensures
        step@ == collect(
            name_views(forget@),
            at as int,
            stage@,
            worktree_views(worktrees@),
            event@,
            absolute,
        ),
{
    match (stage, event) {
        (Stage::StoredPath, ForgetEvent::Found(found)) => if found {
            quiet_step(
                ForgetState::Collecting { forget, at, stage: Stage::Directory, worktrees },
                ForgetAction::ResolveDirectory(at),
            )
        } else {
            turn_to(forget, at + 1, worktrees)
        },
        (Stage::Directory, ForgetEvent::Directory(path)) => match path {
            Some(path) => quiet_step(
                ForgetState::Collecting { forget, at, stage: Stage::Gitlink(path), worktrees },
                ForgetAction::ReadGitlink(at),
            ),
            None => turn_to(forget, at + 1, worktrees),
        },
        (Stage::Gitlink(path), ForgetEvent::Gitlink(content)) => match content {
            Some(content) => match worktree::read_gitlink(content.as_str()) {
                Some(gitdir) => quiet_step(
                    ForgetState::Collecting { forget, at, stage: Stage::Gitdir(path), worktrees },
                    ForgetAction::ResolveGitdir(at, worktree::locate(gitdir, absolute)),
                ),
                None => turn_to(forget, at + 1, worktrees),
            },
            None => turn_to(forget, at + 1, worktrees),
        },
        (Stage::Gitdir(path), ForgetEvent::Resolved(gitdir)) => match gitdir {
            Some(gitdir) => quiet_step(
                ForgetState::Collecting {
                    forget,
                    at,
                    stage: Stage::WorktreesDir(path, gitdir),
                    worktrees,
                },
                ForgetAction::ResolveWorktreesDir,
            ),
            None => turn_to(forget, at + 1, worktrees),
        },
        (Stage::WorktreesDir(path, gitdir), ForgetEvent::Resolved(dir)) => match dir {
            Some(dir) => {
                let mut worktrees: Vec<Worktree> = worktrees;
                if worktree::is_under(&gitdir, &dir) {
                    let ghost before = worktrees@;
                    worktrees.push(Worktree { workspace: at, path });
                    assert(worktree_views(worktrees@) =~= worktree_views(before).push(
                        WorktreeView { workspace: at as int, path: path@ },
                    ));
                }
                turn_to(forget, at + 1, worktrees)
            },
            None => turn_to(forget, at + 1, worktrees),
        },
        (stage, _) => quiet_step(
            ForgetState::Collecting { forget, at, stage, worktrees },
            ForgetAction::Nothing,
        ),
    }
}

/// Takes one step of `workspace forget`, given whether the path in a gitlink
/// that the event brings is absolute.
pub fn take_step<E>(
    args: &WorkspaceForgetArgs,
    state: ForgetState,
    event: ForgetEvent<E>,
    absolute: bool,
) -> (step: ForgetStep<E>)
    requires
        state@.wf(),
    ensures
        step@ == forget_step(args@, state@, event@, absolute),
        step@.state.wf(),
{
    proof {
        lemma_step_wf(args@, state@, event@, absolute);
    }
    match (state, event) {
        (ForgetState::Start, ForgetEvent::Begin { current, known }) => begin_step(
            args,
            current,
            known,
        ),
        (ForgetState::Start, ForgetEvent::Failed(error)) => fail(error),
        (ForgetState::LoadingStore { forget }, ForgetEvent::Done) => if args.cleanup {
            quiet_step(ForgetState::FindingBackend { forget }, ForgetAction::FindGitBackend)
        } else {
            let none: Vec<Worktree> = Vec::new();
            assert(worktree_views(none@) =~= Seq::<WorktreeView>::empty());
            start_transaction(forget, none)
        },
        (ForgetState::LoadingStore { .. }, ForgetEvent::Failed(error)) => fail(error),
        (ForgetState::FindingBackend { forget }, ForgetEvent::Found(found)) => {
            let none: Vec<Worktree> = Vec::new();
            assert(worktree_views(none@) =~= Seq::<WorktreeView>::empty());
            if found {
                turn_to(forget, 0, none)
            } else {
                start_transaction(forget, none)
            }
        },
        (ForgetState::Collecting { forget, at, stage, worktrees }, event) => collect_step(
            forget,
            at,
            stage,
            worktrees,
            event,
            absolute,
        ),
        (ForgetState::ReadingExecutable { forget, worktrees }, ForgetEvent::Done) => {
            start_transaction(forget, worktrees)
        },
        (ForgetState::ReadingExecutable { .. }, ForgetEvent::Failed(error)) => fail(error),
        (ForgetState::Committing { forget, worktrees }, ForgetEvent::Done) => {
            let none: Vec<Message> = Vec::new();
            assert(message_views(none@) =~= Seq::<MessageView>::empty());
            remove_next(args, forget, worktrees, 0, none)
        },
        (ForgetState::Committing { .. }, ForgetEvent::Failed(error)) => fail(error),
        (ForgetState::Removing { forget, worktrees, at }, ForgetEvent::GitRan(outcome)) => {
            assert(at < worktrees.len());
            let removed: &Worktree = &worktrees[at];
            assert(worktree_views(worktrees@)[at as int] == removed@);
            let messages = worktree::report_removal(
                forget[removed.workspace].symbol.as_str(),
                removed.path.as_str(),
                args.force,
                &outcome,
            );
            remove_next(args, forget, worktrees, at + 1, messages)
        },
        (state, _) => quiet_step(state, ForgetAction::Nothing),
    }
}

/// A step keeps the state well-formed.
proof fn lemma_step_wf<E>(
    args: WorkspaceForgetArgsView,
    state: ForgetStateView,
    event: ForgetEventView<E>,
    absolute: bool,
)
    requires
        state.wf(),
    ensures
        forget_step(args, state, event, absolute).state.wf(),
{
}

/// The event brings a gitlink with a path that can be absolute: one that
/// starts with a root.
pub open spec fn can_be_absolute<E>(event: ForgetEventView<E>) -> bool {
    event matches ForgetEventView::Gitlink(Some(content)) && (gitlink_path(content) matches Some(
        path,
    ) && rooted(path))
}

/// Stops tracking workspaces: takes one step, from what the host reports to
/// what it is asked for next. What counts as an absolute path is up to the
/// platform; a path that does not start with a root never does.
pub fn cmd_workspace_forget<E>(
    args: &WorkspaceForgetArgs,
    state: ForgetState,
    event: ForgetEvent<E>,
) -> (step: ForgetStep<E>)
    requires
        state@.wf(),
    ensures
        exists|absolute: bool|
            (absolute ==> can_be_absolute(event@)) && step@ == #[trigger] forget_step(
                args@,
                state@,
                event@,
                absolute,
            ),
        step@.state.wf(),
{
    let absolute = match &event {
        ForgetEvent::Gitlink(Some(content)) => match worktree::read_gitlink(content.as_str()) {
            Some(path) => worktree::is_absolute(path.as_str()),
            None => false,
        },
        _ => false,
    };
    take_step(args, state, event, absolute)
}

/// What a host reports to the command in the course of a run: events, each
/// with whether the path in a gitlink that it brings is absolute.
pub type Reports<E> = Seq<(ForgetEventView<E>, bool)>;

/// The step that the command takes on the last report of a run.
pub open spec fn run<E>(args: WorkspaceForgetArgsView, reports: Reports<E>) -> ForgetStepView<E>
    decreases reports.len(),
{
    if reports.len() == 0 {
        quiet(ForgetStateView::Start, ForgetActionView::Nothing)
    } else {
        forget_step(
            args,
            run(args, reports.drop_last()).state,
            reports.last().0,
            reports.last().1,
        )
    }
}

/// One more report is one more step.
proof fn lemma_run_step<E>(args: WorkspaceForgetArgsView, reports: Reports<E>, n: int)
    requires
        0 <= n < reports.len(),
    ensures
        run(args, reports.take(n + 1)) == forget_step(
            args,
            run(args, reports.take(n)).state,
            reports[n].0,
            reports[n].1,
        ),
{
    assert(reports.take(n + 1).drop_last() =~= reports.take(n));
    assert(reports.take(n + 1).last() == reports[n]);
}

/// The action has to do with the Git worktrees of workspaces.
pub open spec fn touches_git<E>(action: ForgetActionView<E>) -> bool {
    match action {
        ForgetActionView::LoadStore => false,
        ForgetActionView::RunTransaction(_) => false,
        ForgetActionView::Return(_) => false,
        ForgetActionView::Nothing => false,
        _ => true,
    }
}

spec fn without_git(state: ForgetStateView) -> bool {
    match state {
        ForgetStateView::Start => true,
        ForgetStateView::LoadingStore { .. } => true,
        ForgetStateView::Committing { worktrees, .. } => worktrees.len() == 0,
        ForgetStateView::Finished => true,
        _ => false,
    }
}

/// Unless the user asks to clean up, no directory of a workspace is looked at
/// or touched, whether or not removal is forced.
pub proof fn law_no_cleanup_leaves_directories_alone<E>(
    args: WorkspaceForgetArgsView,
    reports: Reports<E>,
)
    requires
        !args.cleanup,
    ensures
        !touches_git(run(args, reports).action),
{
    lemma_without_git(args, reports);
}

proof fn lemma_without_git<E>(args: WorkspaceForgetArgsView, reports: Reports<E>)
    requires
        !args.cleanup,
    ensures
        without_git(run(args, reports).state),
        !touches_git(run(args, reports).action),
    decreases reports.len(),
{
    if reports.len() > 0 {
        lemma_without_git(args, reports.drop_last());
    }
}

/// Forcing removal has no effect unless the user asks to clean up.
pub proof fn law_force_needs_cleanup<E>(
    args: WorkspaceForgetArgsView,
    reports: Reports<E>,
    force: bool,
)
    requires
        !args.cleanup,
    ensures
        run(args, reports) == run(WorkspaceForgetArgsView { force, ..args }, reports),
    decreases reports.len(),
{
    if reports.len() > 0 {
        law_force_needs_cleanup(args, reports.drop_last(), force);
        lemma_without_git(args, reports.drop_last());
    }
}

/// How far along a state is.
spec fn phase(state: ForgetStateView) -> int {
    match state {
        ForgetStateView::Start => 0,
        ForgetStateView::LoadingStore { .. } => 1,
        ForgetStateView::FindingBackend { .. } => 2,
        ForgetStateView::Collecting { .. } => 3,
        ForgetStateView::ReadingExecutable { .. } => 4,
        ForgetStateView::Committing { .. } => 5,
        ForgetStateView::Removing { .. } => 6,
        ForgetStateView::Finished => 7,
    }
}

/// The command never goes back.
proof fn lemma_phases<E>(args: WorkspaceForgetArgsView, reports: Reports<E>, m: int, n: int)
    requires
        0 <= m <= n <= reports.len(),
    ensures
        phase(run(args, reports.take(m)).state) <= phase(run(args, reports.take(n)).state),
    decreases n - m,
{
    if m < n {
        lemma_phases(args, reports, m, n - 1);
        lemma_run_step(args, reports, n - 1);
    }
}

/// All workspaces are forgotten in a single transaction: it is asked for at
/// most once in a run.
pub proof fn law_single_transaction<E>(
    args: WorkspaceForgetArgsView,
    reports: Reports<E>,
    m: int,
    n: int,
)
    requires
        0 <= m <= n <= reports.len(),
        run(args, reports.take(m)).action is RunTransaction,
        run(args, reports.take(n)).action is RunTransaction,
    ensures
        m == n,
{
    if m > 0 {
        lemma_run_step(args, reports, m - 1);
    }
    if m < n {
        lemma_phases(args, reports, m, n - 1);
        lemma_run_step(args, reports, n - 1);
    }
}

/// The action looks at a workspace, to find out whether it is a worktree.
pub open spec fn inspects<E>(action: ForgetActionView<E>) -> bool {
    match action {
        ForgetActionView::FindStoredPath(..) => true,
        ForgetActionView::ResolveDirectory(_) => true,
        ForgetActionView::ReadGitlink(_) => true,
        ForgetActionView::ResolveGitdir(..) => true,
        ForgetActionView::ResolveWorktreesDir => true,
        _ => false,
    }
}

/// The worktrees are collected before the transaction, while the paths of the
/// workspaces are still stored.
pub proof fn law_worktrees_are_collected_first<E>(
    args: WorkspaceForgetArgsView,
    reports: Reports<E>,
    m: int,
    n: int,
)
    requires
        0 <= m <= reports.len(),
        0 <= n <= reports.len(),
        inspects(run(args, reports.take(m)).action),
        run(args, reports.take(n)).action is RunTransaction,
    ensures
        m < n,
{
    if n > 0 {
        lemma_run_step(args, reports, n - 1);
    }
    if m > 0 {
        lemma_run_step(args, reports, m - 1);
    }
    if n <= m {
        lemma_phases(args, reports, n, m);
    }
}

spec fn forgotten(state: ForgetStateView) -> Option<Seq<WorkspaceNameView>> {
    match state {
        ForgetStateView::Start => None,
        ForgetStateView::LoadingStore { forget } => Some(forget),
        ForgetStateView::FindingBackend { forget } => Some(forget),
        ForgetStateView::Collecting { forget, .. } => Some(forget),
        ForgetStateView::ReadingExecutable { forget, .. } => Some(forget),
        ForgetStateView::Committing { forget, .. } => Some(forget),
        ForgetStateView::Removing { forget, .. } => Some(forget),
        ForgetStateView::Finished => None,
    }
}

/// The report at place `k` began the run, and the user meant `forget` by it.
pub open spec fn begun_with<E>(
    args: WorkspaceForgetArgsView,
    reports: Reports<E>,
    k: int,
    forget: Seq<WorkspaceNameView>,
) -> bool {
    &&& 0 <= k < reports.len()
    &&& reports[k].0 matches ForgetEventView::Begin { current, known } && forget == to_forget(
        wanted(args, current),
        known,
    )
}

proof fn lemma_forgotten<E>(args: WorkspaceForgetArgsView, reports: Reports<E>)
    ensures
        run(args, reports).state.wf(),
        forgotten(run(args, reports).state) matches Some(forget) ==> forget.len() > 0 && exists|
            k: int,
        | #[trigger]
            begun_with(args, reports, k, forget),
    decreases reports.len(),
{
    if reports.len() > 0 {
        let front = reports.drop_last();
        lemma_forgotten(args, front);
        let before = run(args, front).state;
        let after = run(args, reports).state;
        lemma_step_wf(args, before, reports.last().0, reports.last().1);
        if let Some(forget) = forgotten(after) {
            if before is Start {
                assert(begun_with(args, reports, reports.len() - 1, forget));
            } else {
                assert(forgotten(before) == Some(forget));
                let k = choose|k: int| #[trigger] begun_with(args, front, k, forget);
                assert(begun_with(args, reports, k, forget));
            }
        }
    }
}

/// The transaction forgets just those of the workspaces meant by the user that
/// have a working-copy commit.
pub proof fn law_transaction_forgets_what_was_meant<E>(
    args: WorkspaceForgetArgsView,
    reports: Reports<E>,
)
    requires
        run(args, reports).action is RunTransaction,
    ensures
        exists|k: int, forget: Seq<WorkspaceNameView>| #[trigger]
            begun_with(args, reports, k, forget) && forget.len() > 0 && run(args, reports).action
                == ForgetActionView::<E>::RunTransaction(transaction(forget)),
{
    lemma_forgotten(args, reports);
    let state = run(args, reports).state;
    assert(state is Committing);
    let forget = forgotten(state).unwrap();
    let k = choose|k: int| #[trigger] begun_with(args, reports, k, forget);
    assert(begun_with(args, reports, k, forget));
}

/// A worktree is removed only once the transaction has been committed.
pub proof fn law_removal_follows_commit<E>(
    args: WorkspaceForgetArgsView,
    reports: Reports<E>,
) -> (k: int)
    requires
        run(args, reports).action is RunGit,
    ensures
        0 <= k < reports.len(),
        run(args, reports.take(k)).state is Committing,
        reports[k].0 is Done,
{
    assert(run(args, reports).state is Removing);
    lemma_committed(args, reports)
}

proof fn lemma_committed<E>(args: WorkspaceForgetArgsView, reports: Reports<E>) -> (k: int)
    requires
        run(args, reports).state is Removing,
    ensures
        0 <= k < reports.len(),
        run(args, reports.take(k)).state is Committing,
        reports[k].0 is Done,
    decreases reports.len(),
{
    let front = reports.drop_last();
    let last = reports.len() - 1;
    assert(front =~= reports.take(last));
    if run(args, front).state is Removing {
        let k = lemma_committed(args, front);
        assert(front.take(k) =~= reports.take(k));
        k
    } else {
        last
    }
}

/// Where the transaction fails, the command fails with its error, and no
/// worktree is removed: it asks for nothing any more.
pub proof fn law_failed_transaction_ends_all<E>(
    args: WorkspaceForgetArgsView,
    reports: Reports<E>,
    k: int,
    n: int,
    error: E,
)
    requires
        0 <= k < n <= reports.len(),
        run(args, reports.take(k)).state is Committing,
        reports[k].0 == ForgetEventView::Failed(error),
    ensures
        run(args, reports.take(k + 1)).action == ForgetActionView::<E>::Return(
            Err(FailureView::Host(error)),
        ),
        n > k + 1 ==> run(args, reports.take(n)).action is Nothing,
{
    lemma_run_step(args, reports, k);
    if n > k + 1 {
        lemma_phases(args, reports, k + 1, n - 1);
        lemma_run_step(args, reports, n - 1);
    }
}

/// How far the command has come with the workspace at place `at`, if that is
/// the one it looks at.
pub open spec fn stage_of(state: ForgetStateView, at: int) -> Option<StageView> {
    match state {
        ForgetStateView::Collecting { at: place, stage, .. } => if place == at {
            Some(stage)
        } else {
            None
        },
        _ => None,
    }
}

/// On the report at place `i` the command read the gitlink of the workspace at
/// place `at`, and asked for the directory that it names.
pub open spec fn gitlink_read<E>(
    args: WorkspaceForgetArgsView,
    reports: Reports<E>,
    i: int,
    at: int,
) -> bool {
    &&& 0 <= i < reports.len()
    &&& stage_of(run(args, reports.take(i)).state, at) matches Some(StageView::Gitlink(_))
    &&& reports[i].0 matches ForgetEventView::Gitlink(Some(content)) && (gitlink_path(
        content,
    ) matches Some(path) && run(args, reports.take(i + 1)).action == ForgetActionView::<
        E,
    >::ResolveGitdir(at, location(path, reports[i].1)))
}

/// The report at place `j` tells that the directory which the gitlink of the
/// workspace at place `at` names is `gitdir`.
pub open spec fn gitdir_resolved<E>(
    args: WorkspaceForgetArgsView,
    reports: Reports<E>,
    i: int,
    j: int,
    at: int,
    gitdir: Seq<Seq<u8>>,
) -> bool {
    &&& gitlink_read(args, reports, i, at)
    &&& i < j < reports.len()
    &&& stage_of(run(args, reports.take(j)).state, at) matches Some(StageView::Gitdir(_))
    &&& reports[j].0 == ForgetEventView::<E>::Resolved(Some(gitdir))
}

/// The reports at places `i`, `j` and `k` show that the workspace at place `at`
/// is a worktree of the repository: it has a gitlink, and the directory that
/// the gitlink names lies under that of all worktrees.
pub open spec fn shown_colocated<E>(
    args: WorkspaceForgetArgsView,
    reports: Reports<E>,
    i: int,
    j: int,
    k: int,
    at: int,
) -> bool {
    &&& j < k < reports.len()
    &&& stage_of(run(args, reports.take(k)).state, at) matches Some(
        StageView::WorktreesDir(_, gitdir),
    ) && gitdir_resolved(args, reports, i, j, at, gitdir) && (reports[k].0 matches
        ForgetEventView::Resolved(Some(dir)) && lies_under(gitdir, dir))
}

/// How the command came to what it knows of the workspace that it looks at.
proof fn lemma_stage<E>(args: WorkspaceForgetArgsView, reports: Reports<E>)
    ensures
        match run(args, reports).state {
            ForgetStateView::Collecting { at, stage: StageView::Gitdir(_), .. } => exists|i: int|
                #[trigger] gitlink_read(args, reports, i, at),
            ForgetStateView::Collecting { at, stage: StageView::WorktreesDir(_, gitdir), .. } => {
                exists|i: int, j: int| #[trigger] gitdir_resolved(args, reports, i, j, at, gitdir)
            },
            _ => true,
        },
    decreases reports.len(),
{
    if reports.len() > 0 {
        let front = reports.drop_last();
        let last = reports.len() - 1;
        lemma_stage(args, front);
        assert(front =~= reports.take(last));
        assert(reports.take(last + 1) =~= reports);
        let before = run(args, front).state;
        match run(args, reports).state {
            ForgetStateView::Collecting { at, stage: StageView::Gitdir(_), .. } => {
                if stage_of(before, at) matches Some(StageView::Gitlink(_)) {
                    assert(gitlink_read(args, reports, last, at));
                } else {
                    let i = choose|i: int| #[trigger] gitlink_read(args, front, i, at);
                    lemma_gitlink_read(args, reports, i, at);
                }
            },
            ForgetStateView::Collecting { at, stage: StageView::WorktreesDir(_, gitdir), .. } => {
                if stage_of(before, at) matches Some(StageView::Gitdir(_)) {
                    let i = choose|i: int| #[trigger] gitlink_read(args, front, i, at);
                    lemma_gitlink_read(args, reports, i, at);
                    assert(gitdir_resolved(args, reports, i, last, at, gitdir));
                } else {
                    let (i, j) = choose|i: int, j: int| #[trigger]
                        gitdir_resolved(args, front, i, j, at, gitdir);
                    lemma_gitlink_read(args, reports, i, at);
                    assert(front.take(j) =~= reports.take(j));
                    assert(gitdir_resolved(args, reports, i, j, at, gitdir));
                }
            },
            _ => {},
        }
    }
}

/// What has been read stays read.
proof fn lemma_gitlink_read<E>(
    args: WorkspaceForgetArgsView,
    reports: Reports<E>,
    i: int,
    at: int,
)
    requires
        reports.len() > 0,
        gitlink_read(args, reports.drop_last(), i, at),
    ensures
        gitlink_read(args, reports, i, at),
{
    let front = reports.drop_last();
    assert(front.take(i) =~= reports.take(i));
    assert(front.take(i + 1) =~= reports.take(i + 1));
}

/// The worktrees that a state holds.
pub open spec fn collected(state: ForgetStateView) -> Seq<WorktreeView> {
    match state {
        ForgetStateView::Collecting { worktrees, .. } => worktrees,
        ForgetStateView::ReadingExecutable { worktrees, .. } => worktrees,
        ForgetStateView::Committing { worktrees, .. } => worktrees,
        ForgetStateView::Removing { worktrees, .. } => worktrees,
        _ => seq![],
    }
}

proof fn lemma_collected<E>(
    args: WorkspaceForgetArgsView,
    reports: Reports<E>,
    n: int,
) -> (places: (int, int, int))
    requires
        0 <= n < collected(run(args, reports).state).len(),
    ensures
        shown_colocated(
            args,
            reports,
            places.0,
            places.1,
            places.2,
            collected(run(args, reports).state)[n].workspace,
        ),
    decreases reports.len(),
{
    let front = reports.drop_last();
    let last = reports.len() - 1;
    assert(front =~= reports.take(last));
    let before = collected(run(args, front).state);
    let after = collected(run(args, reports).state);
    let at = after[n].workspace;
    if n < before.len() {
        assert(after[n] == before[n]);
        let (i, j, k) = lemma_collected(args, front, n);
        lemma_gitlink_read(args, reports, i, at);
        assert(front.take(j) =~= reports.take(j));
        assert(front.take(k) =~= reports.take(k));
        (i, j, k)
    } else {
        lemma_stage(args, front);
        let gitdir = stage_of(run(args, front).state, at)->0->WorktreesDir_1;
        let (i, j) = choose|i: int, j: int| #[trigger]
            gitdir_resolved(args, front, i, j, at, gitdir);
        lemma_gitlink_read(args, reports, i, at);
        assert(front.take(j) =~= reports.take(j));
        assert(gitdir_resolved(args, reports, i, j, at, gitdir));
        (i, j, last)
    }
}

/// Only worktrees of the repository are removed. A workspace without a gitlink
/// or one whose gitlink leads elsewhere is left alone.
pub proof fn law_only_own_worktrees_are_removed<E>(
    args: WorkspaceForgetArgsView,
    reports: Reports<E>,
    at: int,
    command: GitCommandView,
) -> (places: (int, int, int))
    requires
        run(args, reports).action == ForgetActionView::<E>::RunGit(at, command),
    ensures
        command == removal_command(args.force),
        shown_colocated(args, reports, places.0, places.1, places.2, at),
{
    lemma_forgotten(args, reports);
    let state = run(args, reports).state;
    assert(state is Removing);
    lemma_collected(args, reports, state->Removing_at)
}

/// The reports take only such paths for absolute as can be.
pub open spec fn tells_relative_paths<E>(reports: Reports<E>) -> bool {
    forall|i: int|
        0 <= i < reports.len() && (#[trigger] reports[i]).1 ==> can_be_absolute(reports[i].0)
}

/// The directory that a gitlink names by a relative path is looked for in the
/// workspace, and nowhere else.
pub proof fn law_relative_gitdirs_lie_in_the_workspace<E>(
    args: WorkspaceForgetArgsView,
    reports: Reports<E>,
    at: int,
    gitdir: GitdirLocationView,
) -> (path: Seq<char>)
    requires
        tells_relative_paths(reports),
        run(args, reports).action == ForgetActionView::<E>::ResolveGitdir(at, gitdir),
    ensures
        reports.last().0 matches ForgetEventView::Gitlink(Some(content)) && gitlink_path(content)
            == Some(path),
        gitdir == GitdirLocationView::InWorkspace(path) || rooted(path) && gitdir
            == GitdirLocationView::Absolute(path),
{
    assert(reports.len() > 0);
    let last = reports[reports.len() - 1];
    gitlink_path(last.0->Gitlink_0->0)->0
}

/// The reports of runs of Git, one after the other.
pub open spec fn git_ran<E>(outcomes: Seq<GitOutcomeView>) -> Reports<E> {
    outcomes.map_values(|outcome: GitOutcomeView| (ForgetEventView::<E>::GitRan(outcome), false))
}

/// Once the transaction is committed, each collected worktree is tried in
/// turn, whatever came of those before it, and then the command ends well.
pub proof fn law_every_worktree_is_tried<E>(
    args: WorkspaceForgetArgsView,
    reports: Reports<E>,
    outcomes: Seq<GitOutcomeView>,
)
    requires
        run(args, reports).state is Committing,
        outcomes.len() <= run(args, reports).state->Committing_worktrees.len(),
    ensures
        ({
            let worktrees = run(args, reports).state->Committing_worktrees;
            let tried = run(args, reports.push((ForgetEventView::Done, false)) + git_ran(outcomes));
            tried.action == if outcomes.len() < worktrees.len() {
                ForgetActionView::<E>::RunGit(
                    worktrees[outcomes.len() as int].workspace,
                    removal_command(args.force),
                )
            } else {
                ForgetActionView::Return(Ok(()))
            }
        }),
{
    lemma_tried(args, reports, outcomes);
}

proof fn lemma_tried<E>(
    args: WorkspaceForgetArgsView,
    reports: Reports<E>,
    outcomes: Seq<GitOutcomeView>,
)
    requires
        run(args, reports).state is Committing,
        outcomes.len() <= run(args, reports).state->Committing_worktrees.len(),
    ensures
        ({
            let forget = run(args, reports).state->Committing_forget;
            let worktrees = run(args, reports).state->Committing_worktrees;
            let tried = run(args, reports.push((ForgetEventView::Done, false)) + git_ran(outcomes));
            let at = outcomes.len() as int;
            tried == remove::<E>(args, forget, worktrees, at, tried.messages)
        }),
    decreases outcomes.len(),
{
    let committed = reports.push((ForgetEventView::Done, false));
    if outcomes.len() == 0 {
        assert(committed + git_ran(outcomes) =~= committed);
        assert(committed.drop_last() =~= reports);
    } else {
        let front = outcomes.drop_last();
        lemma_tried(args, reports, front);
        let whole = committed + git_ran::<E>(outcomes);
        assert(whole.drop_last() =~= committed + git_ran(front));
        assert(whole.last() == git_ran::<E>(outcomes).last());
    }
}

/// The transaction drops the working-copy commit and the Git head of each
/// workspace in turn, drops all of the workspaces from the store, and is then
/// finished. It does nothing else.
pub proof fn law_transaction_drops_every_workspace(forget: Seq<WorkspaceNameView>, i: int)
    requires
        0 <= i < forget.len(),
    ensures
        ({
            let steps = transaction(forget);
            let n = forget.len() as int;
            &&& steps.len() == 2 * n + 2
            &&& steps[2 * i] == TransactionStepView::RemoveWcCommit(forget[i].name)
            &&& steps[2 * i + 1] == TransactionStepView::ClearGitHead(forget[i].name)
            &&& steps[2 * n] matches TransactionStepView::ForgetInStore(names)
            &&& names.len() == n
            &&& names[i] == forget[i].name
            &&& steps[2 * n + 1] is Finish
        }),
{
    lemma_drop_steps(forget, i);
}

proof fn lemma_drop_steps(forget: Seq<WorkspaceNameView>, i: int)
    requires
        0 <= i < forget.len(),
    ensures
        drop_steps(forget).len() == 2 * forget.len(),
        drop_steps(forget)[2 * i] == TransactionStepView::RemoveWcCommit(forget[i].name),
        drop_steps(forget)[2 * i + 1] == TransactionStepView::ClearGitHead(forget[i].name),
    decreases forget.len(),
{
    let front = forget.drop_last();
    if front.len() > 0 {
        lemma_drop_steps(front, if i < front.len() {
            i
        } else {
            0
        });
    } else {
        assert(drop_steps(front).len() == 0);
    }
}

/// The transaction is described by the workspaces that it forgets, as they are
/// shown to the user: one of them alone, or all of them with commas between.
pub proof fn law_transaction_is_described(
    first: WorkspaceNameView,
    second: WorkspaceNameView,
    others: Seq<WorkspaceNameView>,
)
    ensures
        transaction(seq![first]).last() == TransactionStepView::Finish(
            "forget workspace "@ + first.symbol,
        ),
        ({
            let all = seq![first, second] + others;
            let shown = Seq::new(all.len(), |i: int| all[i].symbol);
            transaction(all).last() == TransactionStepView::Finish(
                "forget workspaces "@ + joined(shown, ", "@),
            )
        }),
{
    let all = seq![first, second] + others;
    assert(symbols(all) =~= Seq::new(all.len(), |i: int| all[i].symbol));
}

/// Without names the current workspace is meant, and else those that were
/// named.
pub proof fn law_current_workspace_is_the_default(
    args: WorkspaceForgetArgsView,
    current: WorkspaceNameView,
)
    ensures
        args.workspaces.len() == 0 ==> wanted(args, current).len() == 1 && wanted(args, current)[0]
            == current,
        args.workspaces.len() > 0 ==> wanted(args, current) == args.workspaces,
{
}

/// A workspace is forgotten if it has a working-copy commit, and else the user
/// is warned of it, each in the order in which it was meant and as often.
pub proof fn law_each_workspace_is_forgotten_or_warned_of(
    meant: Seq<WorkspaceNameView>,
    next: WorkspaceNameView,
    known: Seq<Seq<char>>,
)
    ensures
        to_forget(seq![], known).len() == 0,
        missing_warnings(seq![], known).len() == 0,
        known.contains(next.name) ==> {
            &&& to_forget(meant.push(next), known) == to_forget(meant, known).push(next)
            &&& missing_warnings(meant.push(next), known) == missing_warnings(meant, known)
        },
        !known.contains(next.name) ==> {
            &&& to_forget(meant.push(next), known) == to_forget(meant, known)
            &&& missing_warnings(meant.push(next), known) == missing_warnings(meant, known).push(
                MessageView {
                    kind: MessageKind::Warning,
                    text: "No such workspace: "@ + next.symbol,
                },
            )
        },
{
    let there = |workspace: WorkspaceNameView| known.contains(workspace.name);
    let missing = |workspace: WorkspaceNameView| !known.contains(workspace.name);
    let warn = |workspace: WorkspaceNameView| no_such_workspace(workspace);
    reveal(Seq::filter);
    assert(to_forget(seq![], known) =~= seq![]);
    assert(missing_warnings(seq![], known) =~= seq![]);
    meant.lemma_filter_push(next, there);
    meant.lemma_filter_push(next, missing);
    meant.filter(missing).lemma_push_map_commute(warn, next);
}

/// The command starts with the workspaces that can be forgotten. It warns of
/// the others, and where none is left it says so and ends well.
pub proof fn law_nothing_to_forget_changes_nothing<E>(
    args: WorkspaceForgetArgsView,
    current: WorkspaceNameView,
    known: Seq<Seq<char>>,
    absolute: bool,
)
    ensures
        ({
            let meant = wanted(args, current);
            let forget = to_forget(meant, known);
            let event = ForgetEventView::<E>::Begin { current, known };
            let step = forget_step(args, ForgetStateView::Start, event, absolute);
            &&& forget.len() > 0 ==> {
                &&& step.state == ForgetStateView::LoadingStore { forget }
                &&& step.messages == missing_warnings(meant, known)
                &&& step.action is LoadStore
            }
            &&& forget.len() == 0 ==> {
                &&& step.state is Finished
                &&& step.messages == missing_warnings(meant, known).push(
                    MessageView { kind: MessageKind::Status, text: "Nothing changed."@ },
                )
                &&& step.action == ForgetActionView::<E>::Return(Ok(()))
            }
        }),
{
}

/// The transaction is what the step asks for, with these worktrees left for
/// later.
pub open spec fn commits<E>(
    step: ForgetStepView<E>,
    forget: Seq<WorkspaceNameView>,
    worktrees: Seq<WorktreeView>,
) -> bool {
    &&& step.state == ForgetStateView::Committing { forget, worktrees }
    &&& step.messages.len() == 0
    &&& step.action == ForgetActionView::<E>::RunTransaction(transaction(forget))
}

/// Once the store is loaded the transaction is run, unless the worktrees are to
/// be cleaned up and the repository is one of Git. There the workspaces are
/// looked at, from the first on, and then the executable of Git.
pub proof fn law_transaction_follows_the_store<E>(
    args: WorkspaceForgetArgsView,
    forget: Seq<WorkspaceNameView>,
    worktrees: Seq<WorktreeView>,
    absolute: bool,
)
    requires
        forget.len() > 0,
    ensures
        ({
            let loaded = forget_step(
                args,
                ForgetStateView::LoadingStore { forget },
                ForgetEventView::<E>::Done,
                absolute,
            );
            let other = forget_step(
                args,
                ForgetStateView::FindingBackend { forget },
                ForgetEventView::<E>::Found(false),
                absolute,
            );
            let git = forget_step(
                args,
                ForgetStateView::FindingBackend { forget },
                ForgetEventView::<E>::Found(true),
                absolute,
            );
            let ready = forget_step(
                args,
                ForgetStateView::ReadingExecutable { forget, worktrees },
                ForgetEventView::<E>::Done,
                absolute,
            );
            &&& !args.cleanup ==> commits(loaded, forget, seq![])
            &&& args.cleanup ==> loaded.state == ForgetStateView::FindingBackend { forget }
                && loaded.messages.len() == 0 && loaded.action is FindGitBackend
            &&& commits(other, forget, seq![])
            &&& git.state == (ForgetStateView::Collecting {
                forget,
                at: 0,
                stage: StageView::StoredPath,
                worktrees: seq![],
            })
            &&& git.messages.len() == 0
            &&& git.action == ForgetActionView::<E>::FindStoredPath(0, forget[0].name)
            &&& commits(ready, forget, worktrees)
        }),
{
}

/// The command is done with the workspace at place `at` and has these
/// worktrees. It turns to the next one, or, where there is none, to the
/// executable of Git.
pub open spec fn turns_to_next<E>(
    step: ForgetStepView<E>,
    forget: Seq<WorkspaceNameView>,
    at: int,
    worktrees: Seq<WorktreeView>,
) -> bool {
    &&& step.messages.len() == 0
    &&& at + 1 < forget.len() ==> {
        &&& step.state == (ForgetStateView::Collecting {
            forget,
            at: at + 1,
            stage: StageView::StoredPath,
            worktrees,
        })
        &&& step.action == ForgetActionView::<E>::FindStoredPath(at + 1, forget[at + 1].name)
    }
    &&& at + 1 >= forget.len() ==> {
        &&& step.state == (ForgetStateView::ReadingExecutable { forget, worktrees })
        &&& step.action is ReadGitExecutable
    }
}

/// The command goes on with the workspace at place `at`.
pub open spec fn stays_at<E>(
    step: ForgetStepView<E>,
    forget: Seq<WorkspaceNameView>,
    at: int,
    stage: StageView,
    worktrees: Seq<WorktreeView>,
) -> bool {
    &&& step.messages.len() == 0
    &&& step.state == (ForgetStateView::Collecting { forget, at, stage, worktrees })
}

/// A workspace is looked at step by step: whether a path is stored for it, what
/// directory that is, what its gitlink names, and whether that lies under the
/// directory of all worktrees. Where the answer is no, the workspace is passed
/// over and all that was collected before is kept. Where it is yes to the end,
/// the workspace is added to what was collected, under the path shown.
pub proof fn law_workspaces_are_looked_at<E>(
    args: WorkspaceForgetArgsView,
    forget: Seq<WorkspaceNameView>,
    at: int,
    worktrees: Seq<WorktreeView>,
    path: Seq<char>,
    gitdir: Seq<Seq<u8>>,
    content: Seq<char>,
    dir: Seq<Seq<u8>>,
    absolute: bool,
)
    ensures
        ({
            let on = |stage: StageView, event: ForgetEventView<E>|
                forget_step(
                    args,
                    ForgetStateView::Collecting { forget, at, stage, worktrees },
                    event,
                    absolute,
                );
            let stored = on(StageView::StoredPath, ForgetEventView::Found(true));
            let there = on(StageView::Directory, ForgetEventView::Directory(Some(path)));
            let read = on(StageView::Gitlink(path), ForgetEventView::Gitlink(Some(content)));
            let found = on(StageView::Gitdir(path), ForgetEventView::Resolved(Some(gitdir)));
            let last = StageView::WorktreesDir(path, gitdir);
            let shown = on(last, ForgetEventView::Resolved(Some(dir)));
            &&& stays_at(stored, forget, at, StageView::Directory, worktrees)
            &&& stored.action == ForgetActionView::<E>::ResolveDirectory(at)
            &&& stays_at(there, forget, at, StageView::Gitlink(path), worktrees)
            &&& there.action == ForgetActionView::<E>::ReadGitlink(at)
            &&& gitlink_path(content) matches Some(named) ==> {
                &&& stays_at(read, forget, at, StageView::Gitdir(path), worktrees)
                &&& read.action == ForgetActionView::<E>::ResolveGitdir(
                    at,
                    if absolute {
                        GitdirLocationView::Absolute(named)
                    } else {
                        GitdirLocationView::InWorkspace(named)
                    },
                )
            }
            &&& stays_at(found, forget, at, last, worktrees)
            &&& found.action is ResolveWorktreesDir
            &&& lies_under(gitdir, dir) ==> turns_to_next(
                shown,
                forget,
                at,
                worktrees.push(WorktreeView { workspace: at, path }),
            )
            &&& !lies_under(gitdir, dir) ==> turns_to_next(shown, forget, at, worktrees)
            &&& gitlink_path(content) is None ==> turns_to_next(read, forget, at, worktrees)
            &&& turns_to_next(
                on(StageView::StoredPath, ForgetEventView::Found(false)),
                forget,
                at,
                worktrees,
            )
            &&& turns_to_next(
                on(StageView::Directory, ForgetEventView::Directory(None)),
                forget,
                at,
                worktrees,
            )
            &&& turns_to_next(
                on(StageView::Gitlink(path), ForgetEventView::Gitlink(None)),
                forget,
                at,
                worktrees,
            )
            &&& turns_to_next(
                on(StageView::Gitdir(path), ForgetEventView::Resolved(None)),
                forget,
                at,
                worktrees,
            )
            &&& turns_to_next(on(last, ForgetEventView::Resolved(None)), forget, at, worktrees)
        }),
{
}

/// Once the transaction is committed the first worktree is removed, and after
/// each the next one, until the command ends well. What is said after a removal
/// is said of the workspace whose worktree it was.
pub proof fn law_removals_go_through_the_list<E>(
    args: WorkspaceForgetArgsView,
    forget: Seq<WorkspaceNameView>,
    worktrees: Seq<WorktreeView>,
    at: int,
    outcome: GitOutcomeView,
    absolute: bool,
)
    requires
        0 <= at < worktrees.len(),
    ensures
        ({
            let committed = forget_step(
                args,
                ForgetStateView::Committing { forget, worktrees },
                ForgetEventView::<E>::Done,
                absolute,
            );
            let ran = forget_step(
                args,
                ForgetStateView::Removing { forget, worktrees, at },
                ForgetEventView::<E>::GitRan(outcome),
                absolute,
            );
            let none = forget_step(
                args,
                ForgetStateView::Committing { forget, worktrees: seq![] },
                ForgetEventView::<E>::Done,
                absolute,
            );
            &&& committed.state == (ForgetStateView::Removing { forget, worktrees, at: 0 })
            &&& committed.messages.len() == 0
            &&& committed.action == ForgetActionView::<E>::RunGit(
                worktrees[0].workspace,
                removal_command(args.force),
            )
            &&& ran.messages == removal_report(
                forget[worktrees[at].workspace].symbol,
                worktrees[at].path,
                args.force,
                outcome,
            )
            &&& at + 1 < worktrees.len() ==> {
                &&& ran.state == (ForgetStateView::Removing { forget, worktrees, at: at + 1 })
                &&& ran.action == ForgetActionView::<E>::RunGit(
                    worktrees[at + 1].workspace,
                    removal_command(args.force),
                )
            }
            &&& at + 1 == worktrees.len() ==> {
                &&& ran.state is Finished
                &&& ran.action == ForgetActionView::<E>::Return(Ok(()))
            }
            &&& none.state is Finished
            &&& none.messages.len() == 0
            &&& none.action == ForgetActionView::<E>::Return(Ok(()))
        }),
{
}

/// A failure ends the command with the host's error.
pub proof fn law_failures_of_forget<E>(
    args: WorkspaceForgetArgsView,
    state: ForgetStateView,
    error: E,
    absolute: bool,
)
    requires
        state is Start || state is LoadingStore || state is ReadingExecutable
            || state is Committing,
    ensures
        ({
            let step = forget_step(args, state, ForgetEventView::Failed(error), absolute);
            &&& step.state is Finished
            &&& step.messages.len() == 0
            &&& step.action == ForgetActionView::<E>::Return(Err(FailureView::Host(error)))
        }),
{
}

/// The command waits for the event.
pub open spec fn awaits<E>(state: ForgetStateView, event: ForgetEventView<E>) -> bool {
    match state {
        ForgetStateView::Start => event is Begin || event is Failed,
        ForgetStateView::LoadingStore { .. } => event is Done || event is Failed,
        ForgetStateView::FindingBackend { .. } => event is Found,
        ForgetStateView::Collecting { stage, .. } => match stage {
            StageView::StoredPath => event is Found,
            StageView::Directory => event is Directory,
            StageView::Gitlink(_) => event is Gitlink,
            StageView::Gitdir(_) => event is Resolved,
            StageView::WorktreesDir(..) => event is Resolved,
        },
        ForgetStateView::ReadingExecutable { .. } => event is Done || event is Failed,
        ForgetStateView::Committing { .. } => event is Done || event is Failed,
        ForgetStateView::Removing { .. } => event is GitRan,
        ForgetStateView::Finished => false,
    }
}

/// An event that the command does not wait for changes nothing, and nothing is
/// asked for or said on it.
pub proof fn law_stray_events_of_forget<E>(
    args: WorkspaceForgetArgsView,
    state: ForgetStateView,
    event: ForgetEventView<E>,
    absolute: bool,
)
    requires
        !awaits(state, event),
    ensures
        ({
            let step = forget_step(args, state, event, absolute);
            &&& step.state == state
            &&& step.messages.len() == 0
            &&& step.action is Nothing
        }),
{
}

/// What has been collected is never lost: up to the end of the command it only
/// grows.
pub proof fn law_collected_worktrees_are_kept<E>(
    args: WorkspaceForgetArgsView,
    reports: Reports<E>,
    m: int,
    n: int,
    i: int,
)
    requires
        0 <= m <= n <= reports.len(),
        !(run(args, reports.take(n)).state is Finished),
        0 <= i < collected(run(args, reports.take(m)).state).len(),
    ensures
        i < collected(run(args, reports.take(n)).state).len(),
        collected(run(args, reports.take(n)).state)[i] == collected(
            run(args, reports.take(m)).state,
        )[i],
    decreases n - m,
{
    if m < n {
        lemma_phases(args, reports, n - 1, n);
        law_collected_worktrees_are_kept(args, reports, m, n - 1, i);
        lemma_run_step(args, reports, n - 1);
    }
}

/// The report at place `d` told what directory the workspace at place `at` is,
/// and how its path is shown.
pub open spec fn directory_told<E>(
    args: WorkspaceForgetArgsView,
    reports: Reports<E>,
    d: int,
    at: int,
    path: Seq<char>,
) -> bool {
    &&& 0 <= d < reports.len()
    &&& stage_of(run(args, reports.take(d)).state, at) == Some(StageView::Directory)
    &&& reports[d].0 == ForgetEventView::<E>::Directory(Some(path))
}

proof fn lemma_directory<E>(args: WorkspaceForgetArgsView, reports: Reports<E>)
    ensures
        match run(args, reports).state {
            ForgetStateView::Collecting { at, stage: StageView::Gitlink(path), .. } => exists|
                d: int,
            | #[trigger] directory_told(args, reports, d, at, path),
            ForgetStateView::Collecting { at, stage: StageView::Gitdir(path), .. } => exists|
                d: int,
            | #[trigger] directory_told(args, reports, d, at, path),
            ForgetStateView::Collecting { at, stage: StageView::WorktreesDir(path, _), .. } => {
                exists|d: int| #[trigger] directory_told(args, reports, d, at, path)
            },
            _ => true,
        },
    decreases reports.len(),
{
    if reports.len() > 0 {
        let front = reports.drop_last();
        let last = reports.len() - 1;
        lemma_directory(args, front);
        assert(front =~= reports.take(last));
        let before = run(args, front).state;
        if let ForgetStateView::Collecting { at, stage, .. } = run(args, reports).state {
            let known = match stage {
                StageView::Gitlink(path) => Some(path),
                StageView::Gitdir(path) => Some(path),
                StageView::WorktreesDir(path, _) => Some(path),
                _ => None,
            };
            if let Some(path) = known {
                if stage_of(before, at) == Some(StageView::Directory) {
                    assert(directory_told(args, reports, last, at, path));
                } else {
                    let d = choose|d: int| #[trigger] directory_told(args, front, d, at, path);
                    assert(front.take(d) =~= reports.take(d));
                    assert(directory_told(args, reports, d, at, path));
                }
            }
        }
    }
}

/// Every workspace that the reports show to be a worktree of the repository is
/// among the worktrees to remove when the transaction is run, under the path
/// that was told for it. None is lost on the way.
pub proof fn law_every_own_worktree_is_collected<E>(
    args: WorkspaceForgetArgsView,
    reports: Reports<E>,
    i: int,
    j: int,
    k: int,
    at: int,
) -> (found: (int, int))
    requires
        shown_colocated(args, reports, i, j, k, at),
        run(args, reports).state is Committing,
    ensures
        ({
            let worktrees = run(args, reports).state->Committing_worktrees;
            &&& 0 <= found.0 < worktrees.len()
            &&& worktrees[found.0].workspace == at
            &&& directory_told(args, reports, found.1, at, worktrees[found.0].path)
        }),
{
    let before = reports.take(k);
    let state = run(args, before).state;
    let path = stage_of(state, at)->0->WorktreesDir_0;
    let n = collected(state).len() as int;
    lemma_directory(args, before);
    let d = choose|d: int| #[trigger] directory_told(args, before, d, at, path);
    assert(before.take(d) =~= reports.take(d));
    assert(directory_told(args, reports, d, at, path));
    lemma_run_step(args, reports, k);
    assert(collected(run(args, reports.take(k + 1)).state)[n] == (WorktreeView {
        workspace: at,
        path,
    }));
    assert(reports.take(reports.len() as int) =~= reports);
    law_collected_worktrees_are_kept(args, reports, k + 1, reports.len() as int, n);
    (n, d)
}

/// What a host has to say of a workspace: whether a path is stored for it, what
/// directory that is, what its gitlink holds and whether its path is absolute,
/// and what the directories are that the gitlink names and that of all
/// worktrees.
pub struct WorkspaceFacts {
    pub stored: bool,
    pub directory: Option<Seq<char>>,
    pub gitlink: Option<Seq<char>>,
    pub absolute: bool,
    pub gitdir: Option<Seq<Seq<u8>>>,
    pub worktrees_dir: Option<Seq<Seq<u8>>>,
}

impl WorkspaceFacts {
    /// The workspace is a worktree of the repository.
    pub open spec fn is_worktree(self) -> bool {
        &&& self.stored
        &&& self.directory is Some
        &&& self.gitlink matches Some(content) && gitlink_path(content) is Some
        &&& self.gitdir matches Some(gitdir) && (self.worktrees_dir matches Some(dir)
            && lies_under(gitdir, dir))
    }

    /// What the host reports of the workspace, as far as it is asked.
    pub open spec fn reports<E>(self) -> Reports<E> {
        let found = seq![(ForgetEventView::<E>::Found(self.stored), false)];
        let directory = found.push((ForgetEventView::Directory(self.directory), false));
        let gitlink = directory.push((ForgetEventView::Gitlink(self.gitlink), self.absolute));
        let gitdir = gitlink.push((ForgetEventView::Resolved(self.gitdir), false));
        if !self.stored {
            found
        } else if self.directory is None {
            directory
        } else if !(self.gitlink matches Some(content) && gitlink_path(content) is Some) {
            gitlink
        } else if self.gitdir is None {
            gitdir
        } else {
            gitdir.push((ForgetEventView::Resolved(self.worktrees_dir), false))
        }
    }
}

/// What the host reports of several workspaces, one after the other.
pub open spec fn all_reports<E>(facts: Seq<WorkspaceFacts>) -> Reports<E>
    decreases facts.len(),
{
    if facts.len() == 0 {
        seq![]
    } else {
        all_reports::<E>(facts.drop_last()) + facts.last().reports::<E>()
    }
}

/// The worktrees among workspaces, in their order, each with its path.
pub open spec fn worktrees_among(facts: Seq<WorkspaceFacts>) -> Seq<WorktreeView>
    decreases facts.len(),
{
    if facts.len() == 0 {
        seq![]
    } else {
        let front = worktrees_among(facts.drop_last());
        if facts.last().is_worktree() {
            front.push(
                WorktreeView {
                    workspace: facts.len() - 1,
                    path: facts.last().directory->0,
                },
            )
        } else {
            front
        }
    }
}

proof fn lemma_run_push<E>(
    args: WorkspaceForgetArgsView,
    reports: Reports<E>,
    event: ForgetEventView<E>,
    absolute: bool,
)
    ensures
        run(args, reports.push((event, absolute))) == forget_step(
            args,
            run(args, reports).state,
            event,
            absolute,
        ),
{
    assert(reports.push((event, absolute)).drop_last() =~= reports);
}

/// What comes of looking at one workspace.
proof fn lemma_looked_at<E>(
    args: WorkspaceForgetArgsView,
    reports: Reports<E>,
    forget: Seq<WorkspaceNameView>,
    at: int,
    worktrees: Seq<WorktreeView>,
    facts: WorkspaceFacts,
)
    requires
        run(args, reports).state == (ForgetStateView::Collecting {
            forget,
            at,
            stage: StageView::StoredPath,
            worktrees,
        }),
    ensures
        run(args, reports + facts.reports::<E>()) == look_at::<E>(
            forget,
            at + 1,
            if facts.is_worktree() {
                worktrees.push(WorktreeView { workspace: at, path: facts.directory->0 })
            } else {
                worktrees
            },
        ),
{
    let found = (ForgetEventView::<E>::Found(facts.stored), false);
    let directory = (ForgetEventView::<E>::Directory(facts.directory), false);
    let gitlink = (ForgetEventView::<E>::Gitlink(facts.gitlink), facts.absolute);
    let gitdir = (ForgetEventView::<E>::Resolved(facts.gitdir), false);
    let dir = (ForgetEventView::<E>::Resolved(facts.worktrees_dir), false);
    let a = reports.push(found);
    let b = a.push(directory);
    let c = b.push(gitlink);
    let d = c.push(gitdir);
    let e = d.push(dir);
    lemma_run_push(args, reports, found.0, found.1);
    if !facts.stored {
        assert(reports + facts.reports::<E>() =~= a);
    } else {
        lemma_run_push(args, a, directory.0, directory.1);
        if facts.directory is None {
            assert(reports + facts.reports::<E>() =~= b);
        } else {
            lemma_run_push(args, b, gitlink.0, gitlink.1);
            if !(facts.gitlink matches Some(content) && gitlink_path(content) is Some) {
                assert(reports + facts.reports::<E>() =~= c);
            } else {
                lemma_run_push(args, c, gitdir.0, gitdir.1);
                if facts.gitdir is None {
                    assert(reports + facts.reports::<E>() =~= d);
                } else {
                    lemma_run_push(args, d, dir.0, dir.1);
                    assert(reports + facts.reports::<E>() =~= e);
                }
            }
        }
    }
}

/// Where nothing fails, a run with cleanup looks at every workspace that is to
/// be forgotten, forgets all of them, and then has just those left to remove
/// that are worktrees of the repository, in their order.
pub proof fn law_cleanup_finds_all_worktrees<E>(
    args: WorkspaceForgetArgsView,
    current: WorkspaceNameView,
    known: Seq<Seq<char>>,
    facts: Seq<WorkspaceFacts>,
)
    requires
        args.cleanup,
        facts.len() > 0,
        facts.len() == to_forget(wanted(args, current), known).len(),
    ensures
        ({
            let forget = to_forget(wanted(args, current), known);
            let begin = (ForgetEventView::<E>::Begin { current, known }, false);
            let done = (ForgetEventView::<E>::Done, false);
            let git = (ForgetEventView::<E>::Found(true), false);
            let looked = seq![begin, done, git] + all_reports::<E>(facts);
            &&& run(args, looked).action is ReadGitExecutable
            &&& commits(run(args, looked.push(done)), forget, worktrees_among(facts))
        }),
{
    let forget = to_forget(wanted(args, current), known);
    let begin = (ForgetEventView::<E>::Begin { current, known }, false);
    let done = (ForgetEventView::<E>::Done, false);
    let git = (ForgetEventView::<E>::Found(true), false);
    let opened = seq![begin, done, git];
    let none: Reports<E> = seq![];
    lemma_run_push(args, none, begin.0, false);
    lemma_run_push(args, none.push(begin), done.0, false);
    lemma_run_push(args, none.push(begin).push(done), git.0, false);
    assert(none.push(begin).push(done).push(git) =~= opened);
    lemma_all_looked_at(args, opened, forget, facts);
    lemma_run_push(args, opened + all_reports::<E>(facts), done.0, false);
}

proof fn lemma_all_looked_at<E>(
    args: WorkspaceForgetArgsView,
    reports: Reports<E>,
    forget: Seq<WorkspaceNameView>,
    facts: Seq<WorkspaceFacts>,
)
    requires
        facts.len() <= forget.len(),
        run(args, reports) == look_at::<E>(forget, 0, seq![]),
        forget.len() > 0,
    ensures
        run(args, reports + all_reports::<E>(facts)) == look_at::<E>(
            forget,
            facts.len() as int,
            worktrees_among(facts),
        ),
    decreases facts.len(),
{
    if facts.len() == 0 {
        assert(reports + all_reports::<E>(facts) =~= reports);
    } else {
        let front = facts.drop_last();
        lemma_all_looked_at(args, reports, forget, front);
        let before = reports + all_reports::<E>(front);
        lemma_looked_at(
            args,
            before,
            forget,
            front.len() as int,
            worktrees_among(front),
            facts.last(),
        );
        assert(before + facts.last().reports::<E>() =~= reports + all_reports::<E>(facts));
    }
}

/// Of the worktrees among workspaces none is missing, none is added, and each
/// has the path of its own workspace.
pub proof fn law_worktrees_among_workspaces(facts: Seq<WorkspaceFacts>, at: int)
    requires
        0 <= at < facts.len(),
    ensures
        facts[at].is_worktree() <==> exists|i: int|
            0 <= i < worktrees_among(facts).len() && (#[trigger] worktrees_among(
                facts,
            )[i]).workspace == at,
        in_order(worktrees_among(facts), facts.len() as int),
        forall|i: int|
            0 <= i < worktrees_among(facts).len() && (#[trigger] worktrees_among(
                facts,
            )[i]).workspace == at ==> facts[at].directory == Some(worktrees_among(facts)[i].path),
    decreases facts.len(),
{
    let front = facts.drop_last();
    let before = worktrees_among(front);
    let after = worktrees_among(facts);
    lemma_among_in_order(facts);
    lemma_among_in_order(front);
    if at < front.len() {
        law_worktrees_among_workspaces(front, at);
        if facts[at].is_worktree() {
            let i = choose|i: int| 0 <= i < before.len() && (#[trigger] before[i]).workspace == at;
            assert(after[i].workspace == at);
        }
        assert forall|i: int|
            0 <= i < after.len() && (#[trigger] after[i]).workspace == at implies facts[at].directory
            == Some(after[i].path) && facts[at].is_worktree() by {
            assert(i < before.len());
            assert(before[i].workspace == at);
        }
    } else {
        assert forall|i: int|
            0 <= i < after.len() && (#[trigger] after[i]).workspace == at implies i
            == before.len() by {
            if i < before.len() {
                assert(before[i].workspace < front.len());
            }
        }
        if facts[at].is_worktree() {
            assert(after[before.len() as int].workspace == at);
        }
    }
}

proof fn lemma_among_in_order(facts: Seq<WorkspaceFacts>)
    ensures
        in_order(worktrees_among(facts), facts.len() as int),
    decreases facts.len(),
{
    if facts.len() > 0 {
        lemma_among_in_order(facts.drop_last());
    }
}

/// Of the arguments, of what is reported and of what is asked for nothing is
/// left out of sight.
pub proof fn law_views_of_forget(
    args: WorkspaceForgetArgs,
    names: Seq<WorkspaceName>,
    worktrees: Seq<Worktree>,
)
    ensures
        args@.cleanup == args.cleanup,
        args@.force == args.force,
        args@.workspaces.len() == args.workspaces@.len(),
        forall|i: int|
            0 <= i < args.workspaces@.len() ==> (#[trigger] args@.workspaces[i]).name
                == args.workspaces@[i].name@ && args@.workspaces[i].symbol
                == args.workspaces@[i].symbol@,
        name_views(names).len() == names.len(),
        forall|i: int|
            0 <= i < names.len() ==> (#[trigger] name_views(names)[i]).name == names[i].name@
                && name_views(names)[i].symbol == names[i].symbol@,
        worktree_views(worktrees).len() == worktrees.len(),
        forall|i: int|
            0 <= i < worktrees.len() ==> (#[trigger] worktree_views(worktrees)[i]).workspace
                == worktrees[i].workspace && worktree_views(worktrees)[i].path
                == worktrees[i].path@,
{
}

/// What the host reports is seen as it was reported.
pub proof fn law_views_of_reports<E>(event: ForgetEvent<E>)
    ensures
        event matches ForgetEvent::Begin { current, known } ==> (event@ matches
            ForgetEventView::Begin { current: seen, known: names } && seen.name == current.name@
            && seen.symbol == current.symbol@ && names.len() == known@.len() && forall|i: int|
            0 <= i < known@.len() ==> (#[trigger] names[i]) == known@[i]@),
        event matches ForgetEvent::Found(found) ==> event@ == ForgetEventView::<E>::Found(found),
        event matches ForgetEvent::Directory(Some(path)) ==> event@ == ForgetEventView::<
            E,
        >::Directory(Some(path@)),
        event matches ForgetEvent::Directory(None) ==> event@ == ForgetEventView::<E>::Directory(
            None,
        ),
        event matches ForgetEvent::Gitlink(Some(content)) ==> event@ == ForgetEventView::<
            E,
        >::Gitlink(Some(content@)),
        event matches ForgetEvent::Gitlink(None) ==> event@ == ForgetEventView::<E>::Gitlink(None),
        event matches ForgetEvent::Resolved(Some(path)) ==> (event@ matches
            ForgetEventView::Resolved(Some(seen)) && seen.len() == path@.len() && forall|i: int|
            0 <= i < path@.len() ==> (#[trigger] seen[i]) == path@[i]@),
        event matches ForgetEvent::Resolved(None) ==> event@ == ForgetEventView::<E>::Resolved(
            None,
        ),
        event matches ForgetEvent::GitRan(GitOutcome::Success) ==> event@ == ForgetEventView::<
            E,
        >::GitRan(GitOutcomeView::Success),
        event matches ForgetEvent::GitRan(GitOutcome::Failure(stderr)) ==> event@
            == ForgetEventView::<E>::GitRan(GitOutcomeView::Failure(stderr@)),
        event matches ForgetEvent::GitRan(GitOutcome::NotRun(reason)) ==> event@
            == ForgetEventView::<E>::GitRan(GitOutcomeView::NotRun(reason@)),
        event is Done <==> event@ is Done,
        event matches ForgetEvent::Failed(error) ==> event@ == ForgetEventView::Failed(error),
{
}

/// What is asked of the host is seen as it is asked.
pub proof fn law_views_of_requests<E>(action: ForgetAction<E>)
    ensures
        action is LoadStore <==> action@ is LoadStore,
        action is FindGitBackend <==> action@ is FindGitBackend,
        action matches ForgetAction::FindStoredPath(at, name) ==> action@ == ForgetActionView::<
            E,
        >::FindStoredPath(at as int, name@),
        action matches ForgetAction::ResolveDirectory(at) ==> action@ == ForgetActionView::<
            E,
        >::ResolveDirectory(at as int),
        action matches ForgetAction::ReadGitlink(at) ==> action@ == ForgetActionView::<
            E,
        >::ReadGitlink(at as int),
        action matches ForgetAction::ResolveGitdir(at, GitdirLocation::Absolute(path)) ==> action@
            == ForgetActionView::<E>::ResolveGitdir(
            at as int,
            GitdirLocationView::Absolute(path@),
        ),
        action matches ForgetAction::ResolveGitdir(at, GitdirLocation::InWorkspace(path))
            ==> action@ == ForgetActionView::<E>::ResolveGitdir(
            at as int,
            GitdirLocationView::InWorkspace(path@),
        ),
        action is ResolveWorktreesDir <==> action@ is ResolveWorktreesDir,
        action is ReadGitExecutable <==> action@ is ReadGitExecutable,
        action matches ForgetAction::RunTransaction(steps) ==> (action@ matches
            ForgetActionView::RunTransaction(seen) && seen.len() == steps@.len() && forall|i: int|
            0 <= i < steps@.len() ==> (#[trigger] seen[i]) == steps@[i]@),
        action matches ForgetAction::RunGit(at, command) ==> (action@ matches
            ForgetActionView::RunGit(place, seen) && place == at && seen.variable
            == command.variable@ && seen.value == command.value@ && seen.arguments.len()
            == command.arguments@.len() && forall|i: int|
            0 <= i < command.arguments@.len() ==> (#[trigger] seen.arguments[i])
                == command.arguments@[i]@),
        action matches ForgetAction::Return(Ok(_)) ==> action@ == ForgetActionView::<E>::Return(
            Ok(()),
        ),
        action matches ForgetAction::Return(Err(Failure::Host(error))) ==> action@
            == ForgetActionView::Return(Err(FailureView::Host(error))),
        action is Nothing <==> action@ is Nothing,
{
}

/// A step of the transaction is seen as it is to be taken.
pub proof fn law_views_of_transaction_steps(step: TransactionStep)
    ensures
        step matches TransactionStep::RemoveWcCommit(name) ==> step@
            == TransactionStepView::RemoveWcCommit(name@),
        step matches TransactionStep::ClearGitHead(name) ==> step@
            == TransactionStepView::ClearGitHead(name@),
        step matches TransactionStep::ForgetInStore(names) ==> (step@ matches
            TransactionStepView::ForgetInStore(seen) && seen.len() == names@.len() && forall|i: int|
            0 <= i < names@.len() ==> (#[trigger] seen[i]) == names@[i]@),
        step matches TransactionStep::Finish(description) ==> step@ == TransactionStepView::Finish(
            description@,
        ),
{
}

} // verus!
