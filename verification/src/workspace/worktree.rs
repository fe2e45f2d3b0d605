//! Git worktrees that belong to a workspace.

use vstd::prelude::*;

use crate::error::Message;
use crate::error::MessageKind;
use crate::error::MessageView;
use crate::error::message_views;
use crate::text;
use crate::text::lossy;
use crate::text::occurs;
use crate::text::occurs_at;
use crate::text::trimmed;

verus! {

/// Where the directory that a gitlink names is to be looked for.
#[derive(Debug)]
pub enum GitdirLocation {
    /// At this path.
    Absolute(String),
    /// At this path below the workspace.
    InWorkspace(String),
}

/// What [`GitdirLocation`] stands for.
#[verifier::ext_equal]
pub enum GitdirLocationView {
    Absolute(Seq<char>),
    InWorkspace(Seq<char>),
}

impl View for GitdirLocation {
    type V = GitdirLocationView;

    open spec fn view(&self) -> GitdirLocationView {
        match self {
            GitdirLocation::Absolute(path) => GitdirLocationView::Absolute(path@),
            GitdirLocation::InWorkspace(path) => GitdirLocationView::InWorkspace(path@),
        }
    }
}

/// The path that a gitlink file names, if it is one: what follows `gitdir:`,
/// without the white space around it.
pub open spec fn gitlink_path(content: Seq<char>) -> Option<Seq<char>> {
    if occurs_at(content, "gitdir:"@, 0) {
        Some(trimmed(content.skip("gitdir:"@.len() as int)))
    } else {
        None
    }
}

/// Reads the path out of a gitlink file.
pub fn read_gitlink(content: &str) -> (path: Option<String>)
    ensures
        path is Some <==> gitlink_path(content@) is Some,
        path matches Some(path) ==> gitlink_path(content@) == Some(path@),
{
    match text::strip_prefix(content, "gitdir:") {
        Some(rest) => Some(text::trim(rest.as_str())),
        None => None,
    }
}

/// Where to look for a path, given whether it is absolute.
pub open spec fn location(path: Seq<char>, absolute: bool) -> GitdirLocationView {
    if absolute {
        GitdirLocationView::Absolute(path)
    } else {
        GitdirLocationView::InWorkspace(path)
    }
}

/// Decides where to look for a path, given whether it is absolute.
pub fn locate(path: String, absolute: bool) -> (at: GitdirLocation)
    ensures
        at@ == location(path@, absolute),
{
    if absolute {
        GitdirLocation::Absolute(path)
    } else {
        GitdirLocation::InWorkspace(path)
    }
}

/// A path starts with a root of Unix or of Windows: with a separator, or with
/// a drive and a separator behind it.
pub open spec fn rooted(path: Seq<char>) -> bool {
    ||| path.len() > 0 && (path[0] == '/' || path[0] == '\\')
    ||| path.len() > 2 && path[1] == ':' && (path[2] == '/' || path[2] == '\\')
}

/// `std::path::Path::is_absolute` tells whether a path does not depend on the
/// current directory. Only a path that starts with a root does not. Which of
/// these count is left open, as it differs from platform to platform: on Unix
/// those that start with `/`, on Windows those with a drive or another prefix
/// before the root.
#[verifier::external_body]
pub(crate) fn is_absolute(path: &str) -> (absolute: bool)
    ensures
        absolute ==> rooted(path@),
{
    std::path::Path::new(path).is_absolute()
}

/// The components that a list of byte strings stands for.
pub open spec fn components(list: Seq<Vec<u8>>) -> Seq<Seq<u8>> {
    list.map_values(|component: Vec<u8>| component@)
}

/// A path lies below a directory, or is it: its first components are those of
/// the directory.
pub open spec fn lies_under(path: Seq<Seq<u8>>, dir: Seq<Seq<u8>>) -> bool {
    dir.is_prefix_of(path)
}

/// Tells whether a path lies below a directory, or is it. Only whole
/// components count.
pub fn is_under(path: &Vec<Vec<u8>>, dir: &Vec<Vec<u8>>) -> (under: bool)
    ensures
        under == lies_under(components(path@), components(dir@)),
{
    if dir.len() > path.len() {
        return false;
    }
    let mut i: usize = 0;
    while i < dir.len()
        invariant
            i <= dir.len() <= path.len(),
            forall|j: int| 0 <= j < i ==> components(path@)[j] == components(dir@)[j],
        decreases dir.len() - i,
    {
        if !same_bytes(&path[i], &dir[i]) {
            assert(components(path@).subrange(0, dir@.len() as int)[i as int] != components(
                dir@,
            )[i as int]);
            return false;
        }
        i += 1;
    }
    assert(components(path@).subrange(0, dir@.len() as int) =~= components(dir@));
    true
}

fn same_bytes(a: &Vec<u8>, b: &Vec<u8>) -> (same: bool)
    ensures
        same == (a@ == b@),
{
    if a.len() != b.len() {
        return false;
    }
    let mut i: usize = 0;
    while i < a.len()
        invariant
            i <= a.len(),
            a.len() == b.len(),
            forall|j: int| 0 <= j < i ==> a@[j] == b@[j],
        decreases a.len() - i,
    {
        if a[i] != b[i] {
            return false;
        }
        i += 1;
    }
    assert(a@ =~= b@);
    true
}

/// An argument of a command line of Git.
#[derive(Debug)]
pub enum GitArg {
    /// The text itself.
    Text(String),
    /// The directory that all worktrees of the repository share.
    CommonDir,
    /// The directory of the worktree in question.
    Worktree,
}

/// What [`GitArg`] stands for.
#[verifier::ext_equal]
pub enum GitArgView {
    Text(Seq<char>),
    CommonDir,
    Worktree,
}

impl View for GitArg {
    type V = GitArgView;

    open spec fn view(&self) -> GitArgView {
        match self {
            GitArg::Text(text) => GitArgView::Text(text@),
            GitArg::CommonDir => GitArgView::CommonDir,
            GitArg::Worktree => GitArgView::Worktree,
        }
    }
}

/// A run of Git: its arguments, and a variable set in its environment.
#[derive(Debug)]
pub struct GitCommand {
    pub arguments: Vec<GitArg>,
    pub variable: String,
    pub value: String,
}

/// What [`GitCommand`] stands for.
#[verifier::ext_equal]
pub struct GitCommandView {
    pub arguments: Seq<GitArgView>,
    pub variable: Seq<char>,
    pub value: Seq<char>,
}

impl View for GitCommand {
    type V = GitCommandView;

    open spec fn view(&self) -> GitCommandView {
        GitCommandView {
            arguments: self.arguments@.map_values(|arg: GitArg| arg@),
            variable: self.variable@,
            value: self.value@,
        }
    }
}

/// The run of Git that removes a worktree. Its messages are not translated, so
/// that they can be understood.
pub open spec fn removal_command(force: bool) -> GitCommandView {
    let front = seq![
        GitArgView::Text("-C"@),
        GitArgView::CommonDir,
        GitArgView::Text("worktree"@),
        GitArgView::Text("remove"@),
    ];
    GitCommandView {
        arguments: if force {
            front.push(GitArgView::Text("--force"@)).push(GitArgView::Worktree)
        } else {
            front.push(GitArgView::Worktree)
        },
        variable: "LC_ALL"@,
        value: "C"@,
    }
}

/// Writes down the run of Git that removes a worktree.
pub fn remove_worktree(force: bool) -> (command: GitCommand)
    ensures
        command@ == removal_command(force),
{
    let mut arguments: Vec<GitArg> = Vec::new();
    arguments.push(GitArg::Text("-C".to_owned()));
    arguments.push(GitArg::CommonDir);
    arguments.push(GitArg::Text("worktree".to_owned()));
    arguments.push(GitArg::Text("remove".to_owned()));
    if force {
        arguments.push(GitArg::Text("--force".to_owned()));
    }
    arguments.push(GitArg::Worktree);
    let command = GitCommand { arguments, variable: "LC_ALL".to_owned(), value: "C".to_owned() };
    assert(command@.arguments =~= removal_command(force).arguments);
    command
}

/// How a run of Git went.
#[derive(Debug)]
pub enum GitOutcome {
    /// Git did as it was told.
    Success,
    /// Git failed and wrote this to its standard error.
    Failure(Vec<u8>),
    /// Git could not be run, for this reason.
    NotRun(String),
}

/// What [`GitOutcome`] stands for.
#[verifier::ext_equal]
pub enum GitOutcomeView {
    Success,
    Failure(Seq<u8>),
    NotRun(Seq<char>),
}

impl View for GitOutcome {
    type V = GitOutcomeView;

    open spec fn view(&self) -> GitOutcomeView {
        match self {
            GitOutcome::Success => GitOutcomeView::Success,
            GitOutcome::Failure(stderr) => GitOutcomeView::Failure(stderr@),
            GitOutcome::NotRun(reason) => GitOutcomeView::NotRun(reason@),
        }
    }
}

/// What Git complains of when it does not remove a worktree.
#[derive(Clone, Copy, Debug, PartialEq, Eq, Structural)]
pub enum Complaint {
    /// There is no such worktree any more.
    AlreadyGone,
    /// There is work in it that would be lost.
    Dirty,
    /// Anything else.
    Other,
}

/// What Git complains of in a message. That work would be lost is no obstacle
/// to a forced removal.
pub open spec fn complaint(stderr: Seq<char>, force: bool) -> Complaint {
    if occurs(stderr, "is not a working tree"@) {
        Complaint::AlreadyGone
    } else if !force && (occurs(stderr, "contains modified or untracked files"@) || occurs(
        stderr,
        "is dirty"@,
    )) {
        Complaint::Dirty
    } else {
        Complaint::Other
    }
}

/// Finds out what Git complains of.
pub fn read_complaint(stderr: &str, force: bool) -> (found: Complaint)
    ensures
        found == complaint(stderr@, force),
{
    if text::contains(stderr, "is not a working tree") {
        Complaint::AlreadyGone
    } else if !force && (text::contains(stderr, "contains modified or untracked files")
        || text::contains(stderr, "is dirty")) {
        Complaint::Dirty
    } else {
        Complaint::Other
    }
}

/// What the user is told of a failed removal, given the text that Git wrote.
pub open spec fn failure_report(
    symbol: Seq<char>,
    path: Seq<char>,
    force: bool,
    stderr: Seq<char>,
) -> Seq<MessageView> {
    match complaint(stderr, force) {
        Complaint::AlreadyGone => seq![],
        Complaint::Dirty => seq![
            MessageView {
                kind: MessageKind::Warning,
                text: "Git worktree for workspace "@ + symbol
                    + " has uncommitted changes and was not removed."@,
            },
            MessageView {
                kind: MessageKind::Hint,
                text:
                    "Use --cleanup --force to remove it anyway, or manually clean up with `git worktree remove --force "@
                    + path + "`"@,
            },
        ],
        Complaint::Other => seq![
            MessageView {
                kind: MessageKind::Warning,
                text: "Failed to remove Git worktree for workspace "@ + symbol + ": "@ + trimmed(
                    stderr,
                ),
            },
        ],
    }
}

/// Tells the user of a failed removal, given the text that Git wrote.
pub fn report_failure(symbol: &str, path: &str, force: bool, stderr: &str) -> (report: Vec<Message>)
    ensures
        message_views(report@) == failure_report(symbol@, path@, force, stderr@),
{
    let mut report: Vec<Message> = Vec::new();
    match read_complaint(stderr, force) {
        Complaint::AlreadyGone => {},
        Complaint::Dirty => {
            let mut warning = "Git worktree for workspace ".to_owned();
            warning.append(symbol);
            warning.append(" has uncommitted changes and was not removed.");
            report.push(Message { kind: MessageKind::Warning, text: warning });
            let mut hint =
                "Use --cleanup --force to remove it anyway, or manually clean up with `git worktree remove --force ".to_owned();
            hint.append(path);
            hint.append("`");
            report.push(Message { kind: MessageKind::Hint, text: hint });
        },
        Complaint::Other => {
            let mut warning = "Failed to remove Git worktree for workspace ".to_owned();
            warning.append(symbol);
            warning.append(": ");
            warning.append(text::trim(stderr).as_str());
            report.push(Message { kind: MessageKind::Warning, text: warning });
        },
    }
    assert(message_views(report@) =~= failure_report(symbol@, path@, force, stderr@));
    report
}

/// What the user is told of a removal.
pub open spec fn removal_report(
    symbol: Seq<char>,
    path: Seq<char>,
    force: bool,
    outcome: GitOutcomeView,
) -> Seq<MessageView> {
    match outcome {
        GitOutcomeView::Success => seq![],
        GitOutcomeView::Failure(stderr) => failure_report(symbol, path, force, lossy(stderr)),
        GitOutcomeView::NotRun(reason) => seq![
            MessageView {
                kind: MessageKind::Warning,
                text: "Failed to run git worktree remove for workspace "@ + symbol + ": "@ + reason,
            },
        ],
    }
}

/// Tells the user of a removal.
pub fn report_removal(symbol: &str, path: &str, force: bool, outcome: &GitOutcome) -> (report: Vec<
    Message,
>)
    ensures
        message_views(report@) == removal_report(symbol@, path@, force, outcome@),
{
    match outcome {
        GitOutcome::Success => {
            let report: Vec<Message> = Vec::new();
            assert(message_views(report@) =~= Seq::<MessageView>::empty());
            report
        },
        GitOutcome::Failure(stderr) => {
            report_failure(symbol, path, force, text::lossy_text(stderr).as_str())
        },
        GitOutcome::NotRun(reason) => {
            let mut warning = "Failed to run git worktree remove for workspace ".to_owned();
            warning.append(symbol);
            warning.append(": ");
            warning.append(reason.as_str());
            let mut report: Vec<Message> = Vec::new();
            report.push(Message { kind: MessageKind::Warning, text: warning });
            assert(message_views(report@) =~= removal_report(symbol@, path@, force, outcome@));
            report
        },
    }
}

/// A file is a gitlink just where it starts with `gitdir:`. The path is what
/// follows, without the white space around it.
pub proof fn law_gitlinks_name_what_follows(rest: Seq<char>, content: Seq<char>)
    ensures
        gitlink_path("gitdir:"@ + rest) == Some(trimmed(rest)),
        gitlink_path(content) is Some <==> exists|path: Seq<char>|
            content == #[trigger] ("gitdir:"@ + path),
{
    text::law_prefixes_stand_in_front("gitdir:"@ + rest, "gitdir:"@);
    text::law_prefixes_stand_in_front(content, "gitdir:"@);
    assert("gitdir:"@ + rest == "gitdir:"@ + rest);
}

/// A path is looked for where it says if it is absolute, and in the workspace
/// if it is not.
pub proof fn law_relative_paths_are_below_the_workspace(path: Seq<char>)
    ensures
        location(path, true) == GitdirLocationView::Absolute(path),
        location(path, false) == GitdirLocationView::InWorkspace(path),
{
}

/// A path lies under a directory just where it goes on behind it, component by
/// component.
pub proof fn law_paths_below_go_on(path: Seq<Seq<u8>>, dir: Seq<Seq<u8>>)
    ensures
        lies_under(path, dir) <==> dir.len() <= path.len() && forall|i: int|
            0 <= i < dir.len() ==> #[trigger] path[i] == dir[i],
        lies_under(path, dir) <==> exists|rest: Seq<Seq<u8>>| path == #[trigger] (dir + rest),
{
    if lies_under(path, dir) {
        let rest = path.skip(dir.len() as int);
        assert(path =~= path.subrange(0, dir.len() as int) + rest);
        assert(path == dir + rest);
        assert forall|i: int| 0 <= i < dir.len() implies #[trigger] path[i] == dir[i] by {
            assert(path.subrange(0, dir.len() as int)[i] == dir[i]);
        }
    }
    if dir.len() <= path.len() && forall|i: int|
        0 <= i < dir.len() ==> #[trigger] path[i] == dir[i] {
        assert(path.subrange(0, dir.len() as int) =~= dir);
    }
    if exists|rest: Seq<Seq<u8>>| path == #[trigger] (dir + rest) {
        assert(path.subrange(0, dir.len() as int) =~= dir);
    }
}

/// Git is run in the common directory, on the worktree, and without
/// translation. It is told to force the removal just where the user asked for
/// that.
pub proof fn law_removal_command_line(force: bool)
    ensures
        ({
            let arguments = removal_command(force).arguments;
            &&& arguments.len() == if force {
                6nat
            } else {
                5nat
            }
            &&& arguments[0] == GitArgView::Text("-C"@)
            &&& arguments[1] is CommonDir
            &&& arguments[2] == GitArgView::Text("worktree"@)
            &&& arguments[3] == GitArgView::Text("remove"@)
            &&& force ==> arguments[4] == GitArgView::Text("--force"@)
            &&& arguments.last() is Worktree
            &&& removal_command(force).variable == "LC_ALL"@
            &&& removal_command(force).value == "C"@
        }),
{
}

/// What the user is told of a removal depends on what Git said. Of a worktree
/// that is gone nothing is said, whether or not the removal was forced. Of
/// uncommitted changes the user is warned, with a hint at what to do, unless
/// the removal was forced. All else is passed on.
pub proof fn law_failed_removals_are_told(
    symbol: Seq<char>,
    path: Seq<char>,
    force: bool,
    stderr: Seq<char>,
)
    ensures
        ({
            let gone = occurs(stderr, "is not a working tree"@);
            let dirty = occurs(stderr, "contains modified or untracked files"@) || occurs(
                stderr,
                "is dirty"@,
            );
            let report = failure_report(symbol, path, force, stderr);
            &&& gone ==> report.len() == 0
            &&& !gone && dirty && !force ==> {
                &&& report.len() == 2
                &&& report[0].kind == MessageKind::Warning
                &&& report[0].text == "Git worktree for workspace "@ + symbol
                    + " has uncommitted changes and was not removed."@
                &&& report[1].kind == MessageKind::Hint
                &&& report[1].text
                    == "Use --cleanup --force to remove it anyway, or manually clean up with `git worktree remove --force "@
                    + path + "`"@
            }
            &&& !gone && (force || !dirty) ==> {
                &&& report.len() == 1
                &&& report[0].kind == MessageKind::Warning
                &&& report[0].text == "Failed to remove Git worktree for workspace "@ + symbol
                    + ": "@ + trimmed(stderr)
            }
        }),
{
}

/// Of a removal that went well nothing is said, and of Git that could not be
/// run the user is told why. Of a failed removal the user is told by what Git
/// wrote.
pub proof fn law_removals_are_told(
    symbol: Seq<char>,
    path: Seq<char>,
    force: bool,
    stderr: Seq<u8>,
    reason: Seq<char>,
)
    ensures
        removal_report(symbol, path, force, GitOutcomeView::Success).len() == 0,
        removal_report(symbol, path, force, GitOutcomeView::Failure(stderr)) == failure_report(
            symbol,
            path,
            force,
            lossy(stderr),
        ),
        ({
            let report = removal_report(symbol, path, force, GitOutcomeView::NotRun(reason));
            &&& report.len() == 1
            &&& report[0].kind == MessageKind::Warning
            &&& report[0].text == "Failed to run git worktree remove for workspace "@ + symbol
                + ": "@ + reason
        }),
{
}

/// An argument of Git is seen as it is given.
pub proof fn law_views_of_git_arguments(argument: GitArg)
    ensures
        argument matches GitArg::Text(text) ==> argument@ == GitArgView::Text(text@),
        argument is CommonDir <==> argument@ is CommonDir,
        argument is Worktree <==> argument@ is Worktree,
{
}

/// A path starts with a root just where it starts with a separator, or has a
/// separator behind a drive. One that starts with a name or with dots, and has
/// no drive, does not.
pub proof fn law_relative_paths_have_no_root(path: Seq<char>, drive: char)
    ensures
        rooted("/"@ + path),
        rooted("\\"@ + path),
        rooted(seq![drive] + ":/"@ + path),
        rooted(seq![drive] + ":\\"@ + path),
        rooted(path) ==> path.len() > 0 && (path[0] == '/' || path[0] == '\\' || path.len() > 2
            && path[1] == ':' && (path[2] == '/' || path[2] == '\\')),
        !rooted(seq![]),
        !rooted("../"@ + path),
{
    reveal_strlit("/");
    reveal_strlit("\\");
    reveal_strlit(":/");
    reveal_strlit(":\\");
    reveal_strlit("../");
}

/// That a worktree is gone goes before all else. Uncommitted changes stand in
/// the way only of a removal that is not forced.
pub proof fn law_complaints_are_told_apart(stderr: Seq<char>, force: bool)
    ensures
        complaint(stderr, force) == Complaint::AlreadyGone <==> occurs(
            stderr,
            "is not a working tree"@,
        ),
        complaint(stderr, force) == Complaint::Dirty <==> {
            &&& !force
            &&& !occurs(stderr, "is not a working tree"@)
            &&& occurs(stderr, "contains modified or untracked files"@) || occurs(
                stderr,
                "is dirty"@,
            )
        },
{
}

} // verus!
