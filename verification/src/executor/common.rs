//! What all executors share: where a command's files go, what its script
//! says, what becomes of a line of output, and how its result is put
//! together.

use crate::commands::{Command, CommandView};
use crate::events::{Event, EventSummary};
use crate::executed_tests::{
    ArtifactPointer, ArtifactPointerView, ExecutedTestResult, ExecutedTestResultView, PointerView,
    TestOutputs, TestOutputsView, TestResult, TestResultView,
};
use crate::paths::{file_name, file_name_of, resolved, root_substituted};
use crate::text::{append_lines, concat, lines_text};
use vstd::prelude::*;
use vstd::string::*;

verus! {

/// `<smelt_root>/smelt-out/<command_name>`.
pub open spec fn target_root_of(smelt_root: Seq<char>, command_name: Seq<char>) -> Seq<char> {
    smelt_root + "/"@ + "smelt-out"@ + "/"@ + command_name
}

/// The directory that holds what running the command leaves behind.
pub fn get_target_root(smelt_root: &str, command_name: &str) -> (out: String)
    ensures
        out@ == target_root_of(smelt_root@, command_name@),
{
    let mut out = concat(smelt_root, "/");
    out.append("smelt-out");
    out.append("/");
    out.append(command_name);
    out
}

/// What `command.sh` says: the root and the target root are exported, the
/// working directory is entered, and the script follows line by line.
pub open spec fn script_text(
    command: CommandView,
    smelt_root: Seq<char>,
    working_dir: Seq<char>,
) -> Seq<char> {
    "export SMELT_ROOT="@ + smelt_root + "\n"@ + "export TARGET_ROOT="@ + target_root_of(
        smelt_root,
        command.name,
    ) + "\n"@ + "cd "@ + working_dir + "\n"@ + lines_text(command.script)
}

/// What is to be on the filesystem before a command runs.
#[derive(Debug, PartialEq, Eq)]
pub struct Workspace {
    /// The directory to create, with all its parents.
    pub working_dir: String,
    /// The file that holds the script.
    pub script_file: String,
    /// The file that takes the command's output.
    pub stdout_file: String,
    /// What the script file says.
    pub script: String,
}

/// What a [`Workspace`] says, as plain values.
pub struct WorkspaceView {
    pub working_dir: Seq<char>,
    pub script_file: Seq<char>,
    pub stdout_file: Seq<char>,
    pub script: Seq<char>,
}

impl View for Workspace {
    type V = WorkspaceView;

    open spec fn view(&self) -> WorkspaceView {
        WorkspaceView {
            working_dir: self.working_dir@,
            script_file: self.script_file@,
            stdout_file: self.stdout_file@,
            script: self.script@,
        }
    }
}

/// Lays out the workspace of a command below `smelt_root`.  Nothing is
/// written here; the caller creates the directory and the two files.
pub fn prepare_workspace(command: &Command, smelt_root: &str, command_working_dir: &str) -> (out:
    Workspace)
    ensures
        out@ == (WorkspaceView {
            working_dir: command@.target_root(smelt_root@),
            script_file: crate::paths::joined_path(
                command@.target_root(smelt_root@),
                "command.sh"@,
            ),
            stdout_file: crate::paths::joined_path(
                command@.target_root(smelt_root@),
                "command.out"@,
            ),
            script: script_text(command@, smelt_root@, command_working_dir@),
        }),
{
    let working_dir = match command.default_target_root(smelt_root) {
        Ok(dir) => dir,
        Err(_) => String::new(),
    };
    let script_file = crate::paths::join_path(working_dir.as_str(), Command::script_file());
    let stdout_file = crate::paths::join_path(working_dir.as_str(), Command::stdout_file());
    let mut script = concat("export SMELT_ROOT=", smelt_root);
    script.append("\n");
    script.append("export TARGET_ROOT=");
    script.append(get_target_root(smelt_root, command.name.as_str()).as_str());
    script.append("\n");
    script.append("cd ");
    script.append(command_working_dir);
    script.append("\n");
    append_lines(&mut script, &command.script);
    Workspace { working_dir, script_file, stdout_file, script }
}

/// What becomes of one line of output.
#[derive(Debug, PartialEq, Eq)]
pub struct LineOutput {
    /// The event to send, unless the engine is silent.
    pub event: Option<Event>,
    /// What is appended to the command's output file: the line and a line
    /// feed.
    pub written: String,
}

/// Decides what becomes of a line that a command wrote: it always goes to
/// the output file with a line feed behind it, and it is sent as an event
/// unless `avoid_message` is set.
pub fn handle_line(command: &Command, line: String, trace_id: String, avoid_message: bool) -> (out:
    LineOutput)
    ensures
        out.written@ == line@ + "\n"@,
        avoid_message ==> out.event is None,
        !avoid_message ==> (out.event matches Some(event) && event.trace_id@ == trace_id@
            && event.summary() == (EventSummary::Stdout {
            command: command.name@,
            output: line@,
        })),
{
    let written = concat(line.as_str(), "\n");
    let event = if !avoid_message {
        Some(Event::command_stdout(command.name.clone(), trace_id, line))
    } else {
        None
    };
    LineOutput { event, written }
}

/// Where each declared output of the command is to be found.
pub open spec fn output_paths(command: CommandView, smelt_root: Seq<char>) -> Seq<Seq<char>> {
    Seq::new(
        command.outputs.len(),
        |a: int| resolved(command.working_dir, root_substituted(command.outputs[a], smelt_root)),
    )
}

/// Resolves every declared output of the command: the root token is
/// replaced, and what is not absolute then is taken below the command's
/// working directory.
pub fn declared_outputs(command: &Command, smelt_root: &str) -> (out: Vec<String>)
    ensures
        out.deep_view() == output_paths(command@, smelt_root@),
{
    let mut out: Vec<String> = Vec::new();
    let mut a: usize = 0;
    while a < command.outputs.len()
        invariant
            a <= command.outputs.len(),
            out.len() == a,
            forall|j: int|
                0 <= j < a ==> (#[trigger] out[j])@ == output_paths(command@, smelt_root@)[j],
        decreases command.outputs.len() - a,
    {
        let path = command.outputs[a].to_path(command.working_dir.as_str(), smelt_root);
        out.push(path);
        a += 1;
    }
    assert(out.deep_view() =~= output_paths(command@, smelt_root@));
    out
}

/// The artifact for the file at `path`, named after its last component.
pub open spec fn file_artifact_of(path: Seq<char>) -> ArtifactPointerView {
    ArtifactPointerView {
        artifact_name: file_name_of(path)->0,
        pointer: Some(PointerView::Path(path)),
    }
}

/// The artifacts for those of the first `upto` paths that are present, or
/// for those that are absent, in order.
pub open spec fn artifacts_upto(
    paths: Seq<Seq<char>>,
    present: Seq<bool>,
    want_present: bool,
    upto: int,
) -> Seq<ArtifactPointerView>
    decreases upto,
{
    if upto <= 0 {
        Seq::empty()
    } else {
        let rest = artifacts_upto(paths, present, want_present, upto - 1);
        if present[upto - 1] == want_present {
            rest.push(file_artifact_of(paths[upto - 1]))
        } else {
            rest
        }
    }
}

/// The artifact that points at the log of the command.
pub open spec fn log_artifact(smelt_root: Seq<char>, command_name: Seq<char>) -> ArtifactPointerView {
    ArtifactPointerView {
        artifact_name: "smelt_log"@,
        pointer: Some(
            PointerView::Path(target_root_of(smelt_root, command_name) + "/command.out"@),
        ),
    }
}

/// The result of a command that exited with `exit_code`, given where its
/// declared outputs are to be found and which of them are there.
pub open spec fn test_result_of(
    command_name: Seq<char>,
    exit_code: int,
    smelt_root: Seq<char>,
    paths: Seq<Seq<char>>,
    present: Seq<bool>,
) -> ExecutedTestResultView {
    let found = seq![log_artifact(smelt_root, command_name)] + artifacts_upto(
        paths,
        present,
        true,
        paths.len() as int,
    );
    let missing = artifacts_upto(paths, present, false, paths.len() as int);
    let test_result = TestResultView {
        test_name: command_name,
        outputs: Some(TestOutputsView { artifacts: found, exit_code }),
    };
    if missing.len() == 0 {
        ExecutedTestResultView::Success(test_result)
    } else {
        ExecutedTestResultView::MissingFiles { test_result, missing_artifacts: missing }
    }
}

/// Puts the result of a command together.  `paths` is where its declared
/// outputs are to be found and `present` says of each whether it is there.
/// The log is always the first artifact; the outputs that are there follow
/// it, and those that are not make the result one with missing files.
/// Every path must end in a name.
pub fn create_test_result(
    command: &Command,
    exit_code: i32,
    smelt_root: &str,
    paths: &Vec<String>,
    present: &Vec<bool>,
) -> (out: ExecutedTestResult)
    requires
        paths.len() == present.len(),
        forall|a: int| 0 <= a < paths.len() ==> file_name_of(#[trigger] paths[a]@) is Some,
    ensures
        out@ == test_result_of(
            command.name@,
            exit_code as int,
            smelt_root@,
            paths.deep_view(),
            present@,
        ),
        out.has_outputs(),
{
    let mut log_path = get_target_root(smelt_root, command.name.as_str());
    log_path.append("/command.out");
    let mut artifacts: Vec<ArtifactPointer> = Vec::new();
    artifacts.push(ArtifactPointer::file_artifact(String::from_str("smelt_log"), log_path));
    let mut missing_artifacts: Vec<ArtifactPointer> = Vec::new();
    let ghost log = log_artifact(smelt_root@, command.name@);
    let ghost ps = paths.deep_view();
    assert(artifacts.deep_view() =~= seq![log]);
    assert(missing_artifacts.deep_view() =~= Seq::<ArtifactPointerView>::empty());
    let mut a: usize = 0;
    while a < paths.len()
        invariant
            a <= paths.len(),
            paths.len() == present.len(),
            ps == paths.deep_view(),
            forall|x: int| 0 <= x < paths.len() ==> file_name_of(#[trigger] paths[x]@) is Some,
            artifacts.deep_view() == seq![log] + artifacts_upto(ps, present@, true, a as int),
            missing_artifacts.deep_view() == artifacts_upto(ps, present@, false, a as int),
        decreases paths.len() - a,
    {
        let name = match file_name(paths[a].as_str()) {
            Some(name) => name,
            None => String::new(),
        };
        let artifact = ArtifactPointer::file_artifact(name, paths[a].clone());
        assert(artifact@ == file_artifact_of(ps[a as int]));
        let ghost found_before = artifacts.deep_view();
        let ghost missing_before = missing_artifacts.deep_view();
        if !present[a] {
            missing_artifacts.push(artifact);
            assert(missing_artifacts.deep_view() =~= missing_before.push(artifact@));
        } else {
            artifacts.push(artifact);
            assert(artifacts.deep_view() =~= found_before.push(artifact@));
            assert(artifacts.deep_view() =~= seq![log] + artifacts_upto(
                ps,
                present@,
                true,
                a as int + 1,
            ));
        }
        a += 1;
    }
    let no_missing = missing_artifacts.len() == 0;
    let test_result = TestResult {
        test_name: command.name.clone(),
        outputs: Some(TestOutputs { artifacts, exit_code }),
    };
    if no_missing {
        ExecutedTestResult::Success(test_result)
    } else {
        ExecutedTestResult::MissingFiles { test_result, missing_artifacts }
    }
}

} // verus!
