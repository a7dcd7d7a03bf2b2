//! The local executor: the command runs as a child of the engine, on the
//! host.
//!
//! The executor reads what the child writes and waits for it to exit.  What
//! it does on each of these is decided here; starting the child and reading
//! from it is left to the caller.

use crate::commands::Command;
use crate::error::SmeltErr;
use crate::events::EventSummary;
use crate::executed_tests::{ArtifactPointerView, TestOutputs, TestOutputsView};
use crate::executor::common::{handle_line, LineOutput};
use vstd::prelude::*;
use vstd::string::*;

verus! {

/// The exit code of a child that left none behind.
pub const NO_EXIT_CODE: i32 = -555;

/// How many worker threads the engine has unless told otherwise.
pub const DEFAULT_WORKER_THREADS: usize = 4;

/// The executor that runs commands on the host.
#[derive(Debug, PartialEq, Eq, Clone, Copy, Structural)]
pub struct LocalExecutor {}

/// Why an executor could not run a command.
#[derive(Debug)]
pub enum ExecutorErr {
    /// Reading from or writing to the command failed; the text is the cause.
    CommandIOErr(String),
}

impl ExecutorErr {
    /// The text the error is reported with.
    pub fn to_string(&self) -> (out: String)
        ensures
            out@ == "CommandIoError "@ + (match self {
                ExecutorErr::CommandIOErr(cause) => cause@,
            }),
    {
        match self {
            ExecutorErr::CommandIOErr(cause) => crate::text::concat(
                "CommandIoError ",
                cause.as_str(),
            ),
        }
    }
}

/// Makes a local executor.
#[derive(Debug, PartialEq, Eq, Clone, Copy, Structural)]
pub struct LocalExecutorBuilder {
    threads: usize,
}

impl LocalExecutorBuilder {
    /// How many worker threads the executor is to have.
    pub closed spec fn thread_count(&self) -> usize {
        self.threads
    }

    /// A builder for an executor with four worker threads.
    pub fn new() -> (out: Self)
        ensures
            out.thread_count() == DEFAULT_WORKER_THREADS,
    {
        Self { threads: DEFAULT_WORKER_THREADS }
    }

    /// How many worker threads the executor is to have.
    pub fn thread_number(&self) -> (out: usize)
        ensures
            out == self.thread_count(),
    {
        self.threads
    }

    pub fn threads(self, threads: usize) -> (out: Self)
        ensures
            out.thread_count() == threads,
    {
        let mut out = self;
        out.threads = threads;
        out
    }

    pub fn build(self) -> (out: Result<LocalExecutor, SmeltErr>)
        ensures
            out is Ok,
    {
        Ok(LocalExecutor {  })
    }
}

/// The exit code of a child: its own if it left one, else -555.
pub open spec fn exit_code_of(code: Option<i32>) -> i32 {
    match code {
        Some(code) => code,
        None => NO_EXIT_CODE,
    }
}

/// The exit code of a child: its own if it left one, else -555.
pub fn exit_code_or_sentinel(code: Option<i32>) -> (out: i32)
    ensures
        out == exit_code_of(code),
{
    match code {
        Some(code) => code,
        None => NO_EXIT_CODE,
    }
}

/// The shell and its arguments for the prepared script.
pub fn shell_invocation(script_file: &str) -> (out: Vec<String>)
    ensures
        out.deep_view() == seq!["bash"@, script_file@],
{
    let mut out: Vec<String> = Vec::new();
    out.push(String::from_str("bash"));
    out.push(String::from_str(script_file));
    assert(out.deep_view() =~= seq!["bash"@, script_file@]);
    out
}

/// Where the executor stands with a child.
#[derive(Debug, PartialEq, Eq, Clone, Copy, Structural)]
pub enum PumpState {
    /// The child runs.
    Running { stdout_open: bool, stderr_open: bool },
    /// The child has exited; what is left of its two streams is read.
    Draining { exit_code: i32, stdout_open: bool, stderr_open: bool },
    /// The child has exited and both of its streams have ended.
    Finished { exit_code: i32 },
}

/// What the executor learns of a child.
#[derive(Debug, PartialEq, Eq)]
pub enum PumpInput {
    /// The child wrote a line to its output.
    StdoutLine(String),
    /// The child wrote a line to its error stream.
    StderrLine(String),
    /// The child exited, with a code or without.
    Exit { code: Option<i32> },
    /// The output of the child has ended.
    StdoutClosed,
    /// The error stream of the child has ended.
    StderrClosed,
}

/// What the executor does next.
#[derive(Debug, PartialEq, Eq)]
pub enum PumpAction {
    /// Take the line down: write it to the output file and send its event.
    Line(LineOutput),
    /// The child has exited: stop its profiler.
    StopProfiler,
    /// Nothing.
    Nothing,
    /// The child is done with these outputs, and every line it wrote was
    /// taken down; its profiler is stopped if it still runs.
    Done(TestOutputs),
}

impl PumpInput {
    /// The line that came in, if the input is a line of either stream.
    pub open spec fn line(self) -> Option<Seq<char>> {
        match self {
            PumpInput::StdoutLine(text) => Some(text@),
            PumpInput::StderrLine(text) => Some(text@),
            _ => None,
        }
    }
}

impl PumpState {
    /// The state of an executor that has just started a child.
    pub open spec fn fresh() -> PumpState {
        PumpState::Running { stdout_open: true, stderr_open: true }
    }

    /// The state after the executor learnt `input`.  The child is done
    /// when it has exited and both of its streams have ended, in whatever
    /// order that comes about.
    pub open spec fn next(self, input: PumpInput) -> PumpState {
        match (self, input) {
            (PumpState::Running { stdout_open, stderr_open }, PumpInput::Exit { code }) => if !stdout_open
                && !stderr_open {
                PumpState::Finished { exit_code: exit_code_of(code) }
            } else {
                PumpState::Draining { exit_code: exit_code_of(code), stdout_open, stderr_open }
            },
            (PumpState::Running { stdout_open, stderr_open }, PumpInput::StdoutClosed) =>
                PumpState::Running { stdout_open: false, stderr_open },
            (PumpState::Running { stdout_open, stderr_open }, PumpInput::StderrClosed) =>
                PumpState::Running { stdout_open, stderr_open: false },
            (
                PumpState::Draining { exit_code, stdout_open, stderr_open },
                PumpInput::StdoutClosed,
            ) => if stderr_open {
                PumpState::Draining { exit_code, stdout_open: false, stderr_open }
            } else {
                PumpState::Finished { exit_code }
            },
            (
                PumpState::Draining { exit_code, stdout_open, stderr_open },
                PumpInput::StderrClosed,
            ) => if stdout_open {
                PumpState::Draining { exit_code, stdout_open, stderr_open: false }
            } else {
                PumpState::Finished { exit_code }
            },
            _ => self,
        }
    }

    /// Whether a line that came in as `input` is taken down in this state:
    /// every line of either stream is, until the child is done.
    pub open spec fn takes(self, input: PumpInput) -> bool {
        input.line() is Some && !(self is Finished)
    }

    /// The outputs of a child that is done.
    pub open spec fn outputs(self) -> TestOutputsView {
        TestOutputsView {
            artifacts: Seq::<ArtifactPointerView>::empty(),
            exit_code: self->Finished_exit_code as int,
        }
    }

    /// The state of an executor that has just started a child.
    pub fn new() -> (out: Self)
        ensures
            out == Self::fresh(),
    {
        PumpState::Running { stdout_open: true, stderr_open: true }
    }

    /// Decides what to do on `input`.  Every line of either stream is
    /// taken down, before and after the exit of the child.  When the child
    /// exits its profiler is stopped.  The child is done when it has exited
    /// and both of its streams have ended, with the exit code it left or
    /// -555.
    pub fn on_input(
        &mut self,
        input: PumpInput,
        command: &Command,
        trace_id: &str,
        silent: bool,
    ) -> (action: PumpAction)
        ensures
            *final(self) == old(self).next(input),
            match action {
                PumpAction::Line(line) => {
                    &&& old(self).takes(input)
                    &&& line.written@ == input.line()->0 + "\n"@
                    &&& (silent ==> line.event is None)
                    &&& (!silent ==> line.event is Some && line.event->0.trace_id@ == trace_id@
                        && line.event->0.summary() == (EventSummary::Stdout {
                        command: command.name@,
                        output: input.line()->0,
                    }))
                },
                PumpAction::StopProfiler => *old(self) is Running && input is Exit && !(*final(self) is Finished),
                PumpAction::Done(outputs) => !(*old(self) is Finished) && *final(self) is Finished
                    && outputs@ == final(self).outputs(),
                PumpAction::Nothing => !old(self).takes(input) && (*old(self) is Finished || !(
                *final(self) is Finished)) && !(*old(self) is Running && input is Exit),
            },
    {
        match *self {
            PumpState::Finished { .. } => PumpAction::Nothing,
            PumpState::Running { stdout_open, stderr_open } => match input {
                PumpInput::StdoutLine(text) => PumpAction::Line(
                    handle_line(command, text, String::from_str(trace_id), silent),
                ),
                PumpInput::StderrLine(text) => PumpAction::Line(
                    handle_line(command, text, String::from_str(trace_id), silent),
                ),
                PumpInput::Exit { code } => {
                    let exit_code = exit_code_or_sentinel(code);
                    if !stdout_open && !stderr_open {
                        *self = PumpState::Finished { exit_code };
                        let outputs = TestOutputs { artifacts: Vec::new(), exit_code };
                        assert(outputs.artifacts.deep_view() =~= Seq::<ArtifactPointerView>::empty());
                        PumpAction::Done(outputs)
                    } else {
                        *self = PumpState::Draining { exit_code, stdout_open, stderr_open };
                        PumpAction::StopProfiler
                    }
                },
                PumpInput::StdoutClosed => {
                    *self = PumpState::Running { stdout_open: false, stderr_open };
                    PumpAction::Nothing
                },
                PumpInput::StderrClosed => {
                    *self = PumpState::Running { stdout_open, stderr_open: false };
                    PumpAction::Nothing
                },
            },
            PumpState::Draining { exit_code, stdout_open, stderr_open } => match input {
                PumpInput::StdoutLine(text) => PumpAction::Line(
                    handle_line(command, text, String::from_str(trace_id), silent),
                ),
                PumpInput::StderrLine(text) => PumpAction::Line(
                    handle_line(command, text, String::from_str(trace_id), silent),
                ),
                PumpInput::StdoutClosed => {
                    if stderr_open {
                        *self = PumpState::Draining { exit_code, stdout_open: false, stderr_open };
                        PumpAction::Nothing
                    } else {
                        *self = PumpState::Finished { exit_code };
                        let outputs = TestOutputs { artifacts: Vec::new(), exit_code };
                        assert(outputs.artifacts.deep_view() =~= Seq::<ArtifactPointerView>::empty());
                        PumpAction::Done(outputs)
                    }
                },
                PumpInput::StderrClosed => {
                    if stdout_open {
                        *self = PumpState::Draining { exit_code, stdout_open, stderr_open: false };
                        PumpAction::Nothing
                    } else {
                        *self = PumpState::Finished { exit_code };
                        let outputs = TestOutputs { artifacts: Vec::new(), exit_code };
                        assert(outputs.artifacts.deep_view() =~= Seq::<ArtifactPointerView>::empty());
                        PumpAction::Done(outputs)
                    }
                },
                PumpInput::Exit { .. } => PumpAction::Nothing,
            },
        }
    }
}

} // verus!
