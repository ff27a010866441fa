//! The rebase driver: what the program decides while it makes the
//! version-control tool run the script, and what it answers when the tool
//! calls it back as its sequence editor. The caller reads and writes the
//! files and runs the tool; every decision is taken here.

use crate::extractor::{record_views, CommitData, CommitDataView};
use crate::sequencer::{
    all_plannable, is_artifact_of, is_script_of, rebase_todo_path, sequence_builder, ScriptArtifact,
    SequenceError,
};
use crate::text::{ends_with, has_part, has_suffix, texts};
use vstd::prelude::*;

verus! {

/// Why the driver gave up.
#[derive(Debug, PartialEq, Eq)]
pub enum DriverError {
    /// The program was called back for a file that is no instruction list.
    ProtocolMismatch,
    /// A record has no plan, so no script was made.
    Plan(SequenceError),
    /// The script could not be written, for the reason given.
    Persist(String),
    /// The tool could not be told to use this program as its sequence
    /// editor, for the reason given.
    Configure(String),
    /// The rebase could not be run or did not end well, for the reason
    /// given.
    Rebase(String),
    /// A report came in that fits no step that was asked for.
    OutOfTurn,
}

/// The texts of a driver's error.
pub enum DriverErrorView {
    ProtocolMismatch,
    Plan(SequenceError),
    Persist(Seq<char>),
    Configure(Seq<char>),
    Rebase(Seq<char>),
    OutOfTurn,
}

impl View for DriverError {
    type V = DriverErrorView;

    open spec fn view(&self) -> DriverErrorView {
        match *self {
            DriverError::ProtocolMismatch => DriverErrorView::ProtocolMismatch,
            DriverError::Plan(fault) => DriverErrorView::Plan(fault),
            DriverError::Persist(reason) => DriverErrorView::Persist(reason@),
            DriverError::Configure(reason) => DriverErrorView::Configure(reason@),
            DriverError::Rebase(reason) => DriverErrorView::Rebase(reason@),
            DriverError::OutOfTurn => DriverErrorView::OutOfTurn,
        }
    }
}

impl DriverErrorView {
    /// The sentence that says why the driver gave up. Where a step failed,
    /// the reason that was reported for it follows the sentence.
    pub open spec fn message_text(self) -> Seq<char> {
        match self {
            DriverErrorView::ProtocolMismatch =>
                "called back for a file that is no rebase instruction list; nothing was written"@,
            DriverErrorView::Plan(fault) => fault.message_text(),
            DriverErrorView::Persist(reason) => "the rewrite script could not be written: "@
                + reason,
            DriverErrorView::Configure(reason) => "the sequence editor could not be configured: "@
                + reason,
            DriverErrorView::Rebase(reason) => "the rebase could not be run or did not end well: "@
                + reason,
            DriverErrorView::OutOfTurn => "a report came in for a step that was not asked for"@,
        }
    }
}

impl DriverError {
    /// A sentence for the operator.
    pub fn message(&self) -> (text: String)
        ensures
            text@ == self@.message_text(),
    {
        match self {
            DriverError::ProtocolMismatch => String::from_str(
                "called back for a file that is no rebase instruction list; nothing was written",
            ),
            DriverError::Plan(fault) => fault.message(),
            DriverError::Persist(reason) => {
                let mut text = String::from_str("the rewrite script could not be written: ");
                text.append(reason.as_str());
                text
            },
            DriverError::Configure(reason) => {
                let mut text = String::from_str("the sequence editor could not be configured: ");
                text.append(reason.as_str());
                text
            },
            DriverError::Rebase(reason) => {
                let mut text = String::from_str(
                    "the rebase could not be run or did not end well: ",
                );
                text.append(reason.as_str());
                text
            },
            DriverError::OutOfTurn => String::from_str(
                "a report came in for a step that was not asked for",
            ),
        }
    }
}

/// The name of the file in which the tool hands over its instruction list.
pub open spec fn todo_file_name() -> Seq<char> {
    "git-rebase-todo"@
}

/// The path is that of an instruction list: it ends with the file's name.
pub open spec fn is_todo_path(path: Seq<char>) -> bool {
    has_suffix(path, todo_file_name())
}

/// Tells whether a path names the instruction list of a rebase.
pub fn is_rebase_todo(path: &str) -> (found: bool)
    ensures
        found == is_todo_path(path@),
{
    ends_with(path, "git-rebase-todo")
}

/// How the program was called.
#[derive(Debug, PartialEq, Eq)]
pub enum Invocation {
    /// By the tool, as its sequence editor, for the instruction list at this
    /// path.
    Callback { target_path: String },
    /// By the operator, with arguments that are still to be read.
    Driver,
}

/// The arguments are those of a callback: a single one, the path of an
/// instruction list.
pub open spec fn is_callback(arguments: Seq<Seq<char>>) -> bool {
    arguments.len() == 1 && is_todo_path(arguments[0])
}

/// Decides once, from the arguments after the program's name, whether the
/// program answers a callback or drives a rewrite.
pub fn select_mode(arguments: &[String]) -> (mode: Invocation)
    ensures
        mode matches Invocation::Callback { target_path } ==> is_callback(texts(arguments@))
            && target_path@ == arguments@[0]@,
        mode is Driver ==> !is_callback(texts(arguments@)),
{
    if arguments.len() == 1 && is_rebase_todo(arguments[0].as_str()) {
        Invocation::Callback { target_path: arguments[0].clone() }
    } else {
        Invocation::Driver
    }
}

/// The path of the script that the callback hands to the tool: the one at
/// which the sequencer's builder keeps it.
pub fn callback_source() -> (path: String)
    ensures
        path@ == rebase_todo_path(),
{
    String::from_str("./data/rebase_todo.txt")
}

/// Answers the tool's call for an edited instruction list.
///
/// For a path that names an instruction list the answer is to write the
/// script there, character for character. For any other path nothing is to
/// be written, and the mismatch is reported.
pub fn handle_sequence_editor(todo_file_path: &str, script_content: &str) -> (outcome: Result<
    ScriptArtifact,
    DriverError,
>)
    ensures
        outcome is Ok <==> is_todo_path(todo_file_path@),
        outcome matches Ok(write) ==> write.path@ == todo_file_path@ && write.content@
            == script_content@,
        outcome matches Err(reason) ==> reason is ProtocolMismatch,
{
    if is_rebase_todo(todo_file_path) {
        Ok(
            ScriptArtifact {
                path: String::from_str(todo_file_path),
                content: String::from_str(script_content),
            },
        )
    } else {
        Err(DriverError::ProtocolMismatch)
    }
}

/// What one run of the driver works on.
#[derive(Debug, PartialEq, Eq)]
pub struct RebaseJob {
    /// The repository whose history is rewritten.
    pub repo_path: String,
    /// The name under which this program can be run again, for the callback.
    pub program_name: String,
    /// The name that every commit gets.
    pub new_author: String,
    /// The address that every commit gets.
    pub new_email: String,
}

/// How far a run of the driver has come.
#[derive(Debug, Clone, Copy, PartialEq, Eq, Structural)]
pub enum DriverState {
    /// Nothing was asked for yet.
    NotTriggered,
    /// The script is being written.
    Persisting,
    /// The tool is being told which sequence editor to use.
    Configuring,
    /// The rebase runs; the tool calls the program back during it.
    RebaseInProgress,
    /// The rebase ended well.
    Completed,
    /// The run was given up.
    Failed,
}

/// What the caller reports to the driver.
#[derive(Debug, PartialEq, Eq)]
pub enum DriverEvent {
    /// The run starts.
    Invoked,
    /// What was asked for last was done.
    StepSucceeded,
    /// What was asked for last could not be done, or the tool ended with a
    /// status other than zero; `reason` says what went wrong.
    StepFailed { reason: String },
}

/// What the driver asks the caller to do next.
#[derive(Debug, PartialEq, Eq)]
pub enum DriverAction {
    /// Write the script, replacing what is at its path.
    Persist(ScriptArtifact),
    /// Run the tool with these arguments and wait for it to end.
    RunTool { program: String, args: Vec<String> },
    /// Nothing is left to do: the history is rewritten.
    Finish,
    /// Stop, and tell the operator why.
    Report(DriverError),
}

/// The texts of an action.
pub enum DriverActionView {
    Persist { path: Seq<char>, content: Seq<char> },
    RunTool { program: Seq<char>, args: Seq<Seq<char>> },
    Finish,
    Report(DriverErrorView),
}

impl View for DriverAction {
    type V = DriverActionView;

    open spec fn view(&self) -> DriverActionView {
        match *self {
            DriverAction::Persist(artifact) => DriverActionView::Persist {
                path: artifact.path@,
                content: artifact.content@,
            },
            DriverAction::RunTool { program, args } => DriverActionView::RunTool {
                program: program@,
                args: texts(args@),
            },
            DriverAction::Finish => DriverActionView::Finish,
            DriverAction::Report(reason) => DriverActionView::Report(reason@),
        }
    }
}

/// The name of the version-control tool.
pub open spec fn tool_name() -> Seq<char> {
    "git"@
}

/// The arguments that make the tool call `program` when a rebase of the
/// repository wants its instruction list edited.
pub open spec fn config_args(repo_path: Seq<char>, program: Seq<char>) -> Seq<Seq<char>> {
    seq!["-C"@, repo_path, "config"@, "sequence.editor"@, program]
}

/// The arguments that start an interactive rebase of the whole history of
/// the repository, from its root.
pub open spec fn rebase_args(repo_path: Seq<char>) -> Seq<Seq<char>> {
    seq!["-C"@, repo_path, "rebase"@, "-i"@, "--root"@]
}

/// Asks for the tool's sequence editor to be set to `program`.
pub fn configure_tool(repo_path: &str, program: &str) -> (action: DriverAction)
    ensures
        action@ == (DriverActionView::RunTool {
            program: tool_name(),
            args: config_args(repo_path@, program@),
        }),
{
    let mut args: Vec<String> = Vec::new();
    args.push(String::from_str("-C"));
    args.push(String::from_str(repo_path));
    args.push(String::from_str("config"));
    args.push(String::from_str("sequence.editor"));
    args.push(String::from_str(program));
    assert(texts(args@) =~= config_args(repo_path@, program@));
    DriverAction::RunTool { program: String::from_str("git"), args }
}

/// Asks for the interactive rebase of the whole history.
pub fn trigger_rebase(repo_path: &str) -> (action: DriverAction)
    ensures
        action@ == (DriverActionView::RunTool {
            program: tool_name(),
            args: rebase_args(repo_path@),
        }),
{
    let mut args: Vec<String> = Vec::new();
    args.push(String::from_str("-C"));
    args.push(String::from_str(repo_path));
    args.push(String::from_str("rebase"));
    args.push(String::from_str("-i"));
    args.push(String::from_str("--root"));
    assert(texts(args@) =~= rebase_args(repo_path@));
    DriverAction::RunTool { program: String::from_str("git"), args }
}

/// The state is one from which no run goes on.
pub open spec fn is_final(state: DriverState) -> bool {
    state == DriverState::Completed || state == DriverState::Failed
}

/// The step that the driver takes in `state` on `event`: the state it moves
/// to and what it asks for.
///
/// A run starts by making the script, which is written before anything is
/// asked of the tool. Then the tool is configured, then the rebase is run.
/// Each step is asked for once; the first failure ends the run, nothing is
/// tried again, and the report hands on the reason that came with the
/// failure.
pub open spec fn is_step_of(
    job: RebaseJob,
    records: Seq<CommitDataView>,
    state: DriverState,
    event: DriverEvent,
    next: DriverState,
    action: DriverAction,
) -> bool {
    match (state, event) {
        (DriverState::NotTriggered, DriverEvent::Invoked) => match action {
            DriverAction::Persist(artifact) => next == DriverState::Persisting && is_artifact_of(
                records,
                job.new_author@,
                job.new_email@,
                rebase_todo_path(),
                Ok::<ScriptArtifact, SequenceError>(artifact),
            ),
            DriverAction::Report(DriverError::Plan(fault)) => next == DriverState::Failed
                && is_script_of(
                records,
                job.new_author@,
                job.new_email@,
                Err::<String, SequenceError>(fault),
            ),
            _ => false,
        },
        (DriverState::Persisting, DriverEvent::StepSucceeded) => next == DriverState::Configuring
            && action@ == (DriverActionView::RunTool {
            program: tool_name(),
            args: config_args(job.repo_path@, job.program_name@),
        }),
        (DriverState::Persisting, DriverEvent::StepFailed { reason }) => next
            == DriverState::Failed && action@ == DriverActionView::Report(
            DriverErrorView::Persist(reason@),
        ),
        (DriverState::Configuring, DriverEvent::StepSucceeded) => next
            == DriverState::RebaseInProgress && action@ == (DriverActionView::RunTool {
            program: tool_name(),
            args: rebase_args(job.repo_path@),
        }),
        (DriverState::Configuring, DriverEvent::StepFailed { reason }) => next
            == DriverState::Failed && action@ == DriverActionView::Report(
            DriverErrorView::Configure(reason@),
        ),
        (DriverState::RebaseInProgress, DriverEvent::StepSucceeded) => next
            == DriverState::Completed && action@ == DriverActionView::Finish,
        (DriverState::RebaseInProgress, DriverEvent::StepFailed { reason }) => next
            == DriverState::Failed && action@ == DriverActionView::Report(
            DriverErrorView::Rebase(reason@),
        ),
        _ => action@ == DriverActionView::Report(DriverErrorView::OutOfTurn) && next == if is_final(
            state,
        ) {
            state
        } else {
            DriverState::Failed
        },
    }
}

/// Takes one step of a run of the driver.
///
/// The caller starts with `NotTriggered` and `Invoked`, does what the action
/// says, and comes back with the new state and with `StepSucceeded` or
/// `StepFailed` and the reason, until the action is `Finish` or `Report`.
pub fn run_rebaser(
    job: &RebaseJob,
    commits: &[CommitData],
    state: DriverState,
    event: DriverEvent,
) -> (step: (DriverState, DriverAction))
    ensures
        is_step_of(*job, record_views(commits@), state, event, step.0, step.1),
{
    match (state, event) {
        (DriverState::NotTriggered, DriverEvent::Invoked) => {
            match sequence_builder(commits, job.new_author.as_str(), job.new_email.as_str()) {
                Ok(artifact) => (DriverState::Persisting, DriverAction::Persist(artifact)),
                Err(fault) => (DriverState::Failed, DriverAction::Report(DriverError::Plan(fault))),
            }
        },
        (DriverState::Persisting, DriverEvent::StepSucceeded) => (
            DriverState::Configuring,
            configure_tool(job.repo_path.as_str(), job.program_name.as_str()),
        ),
        (DriverState::Persisting, DriverEvent::StepFailed { reason }) => (
            DriverState::Failed,
            DriverAction::Report(DriverError::Persist(reason)),
        ),
        (DriverState::Configuring, DriverEvent::StepSucceeded) => (
            DriverState::RebaseInProgress,
            trigger_rebase(job.repo_path.as_str()),
        ),
        (DriverState::Configuring, DriverEvent::StepFailed { reason }) => (
            DriverState::Failed,
            DriverAction::Report(DriverError::Configure(reason)),
        ),
        (DriverState::RebaseInProgress, DriverEvent::StepSucceeded) => (
            DriverState::Completed,
            DriverAction::Finish,
        ),
        (DriverState::RebaseInProgress, DriverEvent::StepFailed { reason }) => (
            DriverState::Failed,
            DriverAction::Report(DriverError::Rebase(reason)),
        ),
        (DriverState::Completed, _) => (
            DriverState::Completed,
            DriverAction::Report(DriverError::OutOfTurn),
        ),
        _ => (DriverState::Failed, DriverAction::Report(DriverError::OutOfTurn)),
    }
}

/// The tool is asked to run only after the script was written, and the
/// rebase only after the tool was configured: an action that runs the tool
/// comes from `Persisting` or `Configuring` on a success and from nowhere
/// else, and a final state is never left.
pub proof fn lemma_steps_in_order(
    job: RebaseJob,
    records: Seq<CommitDataView>,
    state: DriverState,
    event: DriverEvent,
    next: DriverState,
    action: DriverAction,
)
    requires
        is_step_of(job, records, state, event, next, action),
    ensures
        action is RunTool ==> event is StepSucceeded && (state == DriverState::Persisting
            || state == DriverState::Configuring),
        next == DriverState::RebaseInProgress ==> state == DriverState::Configuring,
        next == DriverState::Completed ==> state == DriverState::RebaseInProgress || state
            == DriverState::Completed,
        action is Persist ==> state == DriverState::NotTriggered,
        is_final(state) ==> next == state,
        event is StepFailed ==> next == DriverState::Failed || next == state,
{
}

/// Nothing is written for a history that cannot be planned in full: where a
/// record has no plan, no step asks for the script to be persisted, and a
/// run ends in `Failed` at its first step.
pub proof fn lemma_no_plan_no_write(
    job: RebaseJob,
    records: Seq<CommitDataView>,
    state: DriverState,
    event: DriverEvent,
    next: DriverState,
    action: DriverAction,
)
    requires
        is_step_of(job, records, state, event, next, action),
        !all_plannable(records),
    ensures
        !(action is Persist),
        state == DriverState::NotTriggered ==> next == DriverState::Failed && action is Report,
{
}

/// The directory in which the extracted records of repositories are kept.
pub open spec fn commit_data_dir() -> Seq<char> {
    ".commit_data"@
}

/// The path of the file that keeps the records of the repository of the
/// given name.
pub open spec fn commit_data_file(repo_name: Seq<char>) -> Seq<char> {
    commit_data_dir() + "/"@ + repo_name + "_commit_data.json"@
}

/// Names the file that keeps the extracted records of a repository.
pub fn commit_data_path(repo_name: &str) -> (path: String)
    ensures
        path@ == commit_data_file(repo_name@),
{
    let mut path = String::from_str(".commit_data");
    path.append("/");
    path.append(repo_name);
    path.append("_commit_data.json");
    path
}

/// What is said of a repository path that is refused.
pub open spec fn repo_path_complaint() -> Seq<char> {
    "The repository path must end with '.git'"@
}

/// The verdict on the extension of a repository path: it has to be `git`.
pub open spec fn extension_verdict(extension: Option<Seq<char>>) -> Result<(), Seq<char>> {
    if extension == Some("git"@) {
        Ok(())
    } else {
        Err(repo_path_complaint())
    }
}

/// The outcome is the verdict on the extension.
pub open spec fn is_verdict_of(extension: Option<Seq<char>>, outcome: Result<(), String>) -> bool {
    match outcome {
        Ok(_) => extension_verdict(extension) is Ok,
        Err(complaint) => extension_verdict(extension) == Err::<(), Seq<char>>(complaint@),
    }
}

/// Accepts the extension `git` and refuses every other, and a path without
/// one.
pub fn check_extension(extension: Option<&str>) -> (outcome: Result<(), String>)
    ensures
        is_verdict_of(
            match extension {
                Some(text) => Some(text@),
                None => None,
            },
            outcome,
        ),
{
    let accepted = match extension {
        Some(text) => {
            let given = String::from_str(text);
            let wanted = String::from_str("git");
            given == wanted
        },
        None => false,
    };
    if accepted {
        Ok(())
    } else {
        Err(String::from_str("The repository path must end with '.git'"))
    }
}

/// The extension `git` with the dot that stands before it in a path.
pub open spec fn dot_git() -> Seq<char> {
    ".git"@
}

/// Calls `std::path::Path::extension` on the path.
///
/// Trusted: as the documentation of `extension` has it, an extension is the
/// portion of the path's file name after the final dot of that name. So a
/// dot followed by the extension stands in the path. Which part of a path is
/// its file name depends on the platform's separators, and nothing is
/// claimed of that: not when there is an extension, nor where in the path it
/// stands.
#[verifier::external_body]
fn path_extension(path: &str) -> (extension: Option<String>)
    ensures
        extension matches Some(found) ==> has_part(path@, seq!['.'] + found@),
{
    match std::path::Path::new(path).extension() {
        Some(found) => match found.to_str() {
            Some(text) => Some(text.to_owned()),
            None => None,
        },
        None => None,
    }
}

/// Checks that a repository path has the extension `git`.
///
/// What the extension of a path is lies with the platform, and the path is
/// accepted or refused by the verdict of `check_extension` on it. On every
/// platform a path is accepted only if `.git` stands in it: a path without
/// it is refused, and every refusal carries the fixed complaint.
pub fn validate_git_repo_path(val: &str) -> (outcome: Result<(), String>)
    ensures
        outcome is Ok ==> has_part(val@, dot_git()),
        outcome matches Err(complaint) ==> complaint@ == repo_path_complaint(),
{
    let extension = path_extension(val);
    match &extension {
        Some(text) => {
            let outcome = check_extension(Some(text.as_str()));
            proof {
                if outcome is Ok {
                    reveal_strlit("git");
                    reveal_strlit(".git");
                    assert(seq!['.'] + text@ =~= dot_git());
                }
            }
            outcome
        },
        None => check_extension(None),
    }
}

} // verus!
