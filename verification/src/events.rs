//! The events that an invocation streams to its caller.

use crate::executed_tests::{TestOutputs, TestOutputsView, TestResult};
use vstd::prelude::*;
use vstd::string::*;

verus! {

/// How many events the stream of an invocation holds before a sender has
/// to wait.
pub const EVENT_STREAM_CAPACITY: usize = 100;

/// A point in time: seconds and nanoseconds since the Unix epoch.
#[derive(Debug, PartialEq, Eq, Clone, Copy, Structural)]
pub struct Timestamp {
    pub seconds: i64,
    pub nanos: i32,
}

/// Calls `Timestamp::from` of `prost-types` on `SystemTime::now()`.  The
/// nanoseconds of what it gives are below one second and not negative.
#[verifier::external_body]
fn timestamp_now() -> (out: Timestamp)
    ensures
        0 <= out.nanos < 1_000_000_000,
{
    let now = prost_types::Timestamp::from(std::time::SystemTime::now());
    Timestamp { seconds: now.seconds, nanos: now.nanos }
}

/// The preamble of an invocation: who runs it, where, and on which revision.
#[derive(Debug, PartialEq, Eq)]
pub struct ExecutionStart {
    pub hostname: String,
    pub username: String,
    pub smelt_root: String,
    pub git_hash: String,
    pub git_branch: String,
    pub git_repo: String,
}

#[derive(Debug, PartialEq, Eq, Clone, Copy, Structural)]
pub struct AllCommandsDone {}

#[derive(Debug, PartialEq, Eq, Clone, Copy, Structural)]
pub struct SetGraph {}

#[derive(Debug, PartialEq, Eq)]
pub enum InvokeVariant {
    Start(ExecutionStart),
    Done(AllCommandsDone),
    GraphSet(SetGraph),
}

#[derive(Debug, PartialEq, Eq)]
pub struct InvokeEvent {
    pub invoke_variant: Option<InvokeVariant>,
}

#[derive(Debug, PartialEq, Eq, Clone, Copy, Structural)]
pub struct CommandScheduled {}

#[derive(Debug, PartialEq, Eq, Clone, Copy, Structural)]
pub struct CommandStarted {}

#[derive(Debug, PartialEq, Eq, Clone, Copy, Structural)]
pub struct CommandCancelled {}

#[derive(Debug, PartialEq, Eq, Clone, Copy, Structural)]
pub struct CommandSkipped {}

#[derive(Debug, PartialEq, Eq)]
pub struct CommandStdout {
    pub output: String,
}

/// The load of a command on the processors, kept as whole numbers: the
/// load is `cpu_time / wall_time * multiplier / divisor`.
#[derive(Debug, PartialEq, Eq, Clone, Copy, Structural)]
pub struct CpuLoad {
    /// Processor time used between two samples.
    pub cpu_time: u64,
    /// Time passed between the same two samples.
    pub wall_time: u64,
    pub multiplier: u64,
    pub divisor: u64,
}

#[derive(Debug, PartialEq, Eq, Clone, Copy, Structural)]
pub struct CommandProfile {
    /// Bytes of memory in use.
    pub memory_used: u64,
    pub cpu_load: CpuLoad,
    pub time_since_start_ms: u64,
}

#[derive(Debug, PartialEq, Eq)]
pub struct CommandFinished {
    pub outputs: Option<TestOutputs>,
}

#[derive(Debug, PartialEq, Eq)]
pub enum CommandVariant {
    Scheduled(CommandScheduled),
    Started(CommandStarted),
    Cancelled(CommandCancelled),
    Finished(CommandFinished),
    Stdout(CommandStdout),
    Profile(CommandProfile),
    Skipped(CommandSkipped),
}

#[derive(Debug, PartialEq, Eq)]
pub struct CommandEvent {
    pub command_ref: String,
    pub command_variant: Option<CommandVariant>,
}

/// The kinds of error that an event can carry.
#[derive(Debug, PartialEq, Eq, Clone, Copy, Structural)]
pub enum SmeltErrorType {
    /// A malformed submission.
    ClientError,
    /// A failure of the engine while an invocation runs.
    InternalError,
    /// A command set that does not hold together.
    ValidateError,
}

#[derive(Debug, PartialEq, Eq)]
pub struct SmeltError {
    pub sig: SmeltErrorType,
    pub error_payload: String,
}

#[derive(Debug, PartialEq, Eq)]
pub enum Et {
    Invoke(InvokeEvent),
    Command(CommandEvent),
    Error(SmeltError),
}

#[derive(Debug, PartialEq, Eq)]
pub struct Event {
    pub trace_id: String,
    pub time: Option<Timestamp>,
    pub et: Option<Et>,
}

/// What an event says, leaving out when it was made.
pub enum EventSummary {
    InvokeStart,
    InvokeDone,
    InvokeSet,
    Scheduled { command: Seq<char> },
    Started { command: Seq<char> },
    Cancelled { command: Seq<char> },
    Skipped { command: Seq<char> },
    Stdout { command: Seq<char>, output: Seq<char> },
    Profile { command: Seq<char>, profile: CommandProfile },
    Finished { command: Seq<char>, outputs: TestOutputsView },
    Error { sig: SmeltErrorType, payload: Seq<char> },
    /// An event without a payload.
    Empty,
}

impl Et {
    /// What the payload says.
    pub open spec fn summary(&self) -> EventSummary {
        match self {
            Et::Invoke(invoke) => match invoke.invoke_variant {
                Some(InvokeVariant::Start(_)) => EventSummary::InvokeStart,
                Some(InvokeVariant::Done(_)) => EventSummary::InvokeDone,
                Some(InvokeVariant::GraphSet(_)) => EventSummary::InvokeSet,
                None => EventSummary::Empty,
            },
            Et::Command(command) => match command.command_variant {
                Some(CommandVariant::Scheduled(_)) => EventSummary::Scheduled {
                    command: command.command_ref@,
                },
                Some(CommandVariant::Started(_)) => EventSummary::Started {
                    command: command.command_ref@,
                },
                Some(CommandVariant::Cancelled(_)) => EventSummary::Cancelled {
                    command: command.command_ref@,
                },
                Some(CommandVariant::Skipped(_)) => EventSummary::Skipped {
                    command: command.command_ref@,
                },
                Some(CommandVariant::Stdout(stdout)) => EventSummary::Stdout {
                    command: command.command_ref@,
                    output: stdout.output@,
                },
                Some(CommandVariant::Profile(profile)) => EventSummary::Profile {
                    command: command.command_ref@,
                    profile,
                },
                Some(CommandVariant::Finished(finished)) => match finished.outputs {
                    Some(outputs) => EventSummary::Finished {
                        command: command.command_ref@,
                        outputs: outputs@,
                    },
                    None => EventSummary::Empty,
                },
                None => EventSummary::Empty,
            },
            Et::Error(error) => EventSummary::Error {
                sig: error.sig,
                payload: error.error_payload@,
            },
        }
    }

    /// The payload that ends an invocation.
    pub fn done() -> (out: Self)
        ensures
            out == Et::Invoke(
                InvokeEvent { invoke_variant: Some(InvokeVariant::Done(AllCommandsDone {  })) },
            ),
    {
        Et::Invoke(InvokeEvent { invoke_variant: Some(InvokeVariant::Done(AllCommandsDone {  })) })
    }

    /// The payload that confirms a command set.
    pub fn set_graph() -> (out: Self)
        ensures
            out == Et::Invoke(InvokeEvent { invoke_variant: Some(InvokeVariant::GraphSet(SetGraph {  })) }),
    {
        Et::Invoke(InvokeEvent { invoke_variant: Some(InvokeVariant::GraphSet(SetGraph {  })) })
    }
}

impl Event {
    /// What the event says, leaving out when it was made.
    pub open spec fn summary(&self) -> EventSummary {
        match self.et {
            Some(et) => et.summary(),
            None => EventSummary::Empty,
        }
    }

    /// The event with the payload `et`, made at the time `time`.
    pub fn new_at(et: Et, trace_id: String, time: Timestamp) -> (out: Self)
        ensures
            out == (Event { trace_id, time: Some(time), et: Some(et) }),
    {
        Event { trace_id, time: Some(time), et: Some(et) }
    }

    /// The event with the payload `et`, made now.
    pub fn new(et: Et, trace_id: String) -> (out: Self)
        ensures
            out.trace_id == trace_id,
            out.et == Some(et),
            out.time matches Some(time) && 0 <= time.nanos < 1_000_000_000,
    {
        Self::new_at(et, trace_id, timestamp_now())
    }

    pub fn from_command_variant(command_ref: String, trace_id: String, variant: CommandVariant) -> (out:
        Self)
        ensures
            out.trace_id == trace_id,
            out.et == Some(
                Et::Command(CommandEvent { command_ref, command_variant: Some(variant) }),
            ),
            out.time is Some,
    {
        let et = Et::Command(CommandEvent { command_ref, command_variant: Some(variant) });
        Self::new(et, trace_id)
    }

    pub fn command_started(command_ref: String, trace_id: String) -> (out: Self)
        ensures
            out.trace_id == trace_id,
            out.et == Some(
                Et::Command(
                    CommandEvent {
                        command_ref,
                        command_variant: Some(CommandVariant::Started(CommandStarted {  })),
                    },
                ),
            ),
            out.time is Some,
    {
        Self::from_command_variant(
            command_ref,
            trace_id,
            CommandVariant::Started(CommandStarted {  }),
        )
    }

    /// The event that says how a command ended.  The result must carry
    /// its outputs.
    pub fn command_finished(test: TestResult, trace_id: String) -> (out: Self)
        requires
            test.outputs is Some,
        ensures
            out.trace_id == trace_id,
            out.et == Some(
                Et::Command(
                    CommandEvent {
                        command_ref: test.test_name,
                        command_variant: Some(
                            CommandVariant::Finished(CommandFinished { outputs: test.outputs }),
                        ),
                    },
                ),
            ),
            out.time is Some,
    {
        let command_ref = test.test_name;
        let outputs = test.outputs;
        Self::from_command_variant(
            command_ref,
            trace_id,
            CommandVariant::Finished(CommandFinished { outputs }),
        )
    }

    pub fn command_skipped(command_ref: String, trace_id: String) -> (out: Self)
        ensures
            out.trace_id == trace_id,
            out.et == Some(
                Et::Command(
                    CommandEvent {
                        command_ref,
                        command_variant: Some(CommandVariant::Skipped(CommandSkipped {  })),
                    },
                ),
            ),
            out.time is Some,
    {
        Self::from_command_variant(
            command_ref,
            trace_id,
            CommandVariant::Skipped(CommandSkipped {  }),
        )
    }

    pub fn command_cancelled(command_ref: String, trace_id: String) -> (out: Self)
        ensures
            out.trace_id == trace_id,
            out.et == Some(
                Et::Command(
                    CommandEvent {
                        command_ref,
                        command_variant: Some(CommandVariant::Cancelled(CommandCancelled {  })),
                    },
                ),
            ),
            out.time is Some,
    {
        Self::from_command_variant(
            command_ref,
            trace_id,
            CommandVariant::Cancelled(CommandCancelled {  }),
        )
    }

    pub fn command_stdout(command_ref: String, trace_id: String, stdout: String) -> (out: Self)
        ensures
            out.trace_id == trace_id,
            out.et == Some(
                Et::Command(
                    CommandEvent {
                        command_ref,
                        command_variant: Some(
                            CommandVariant::Stdout(CommandStdout { output: stdout }),
                        ),
                    },
                ),
            ),
            out.time is Some,
    {
        Self::from_command_variant(
            command_ref,
            trace_id,
            CommandVariant::Stdout(CommandStdout { output: stdout }),
        )
    }

    /// Whether the event ends an invocation.  The event must have a payload.
    pub fn finished_event(&self) -> (b: bool)
        requires
            self.et is Some,
        ensures
            b == (self.summary() is InvokeDone),
    {
        match &self.et {
            Some(Et::Invoke(InvokeEvent { invoke_variant: Some(InvokeVariant::Done(_)) })) => true,
            _ => false,
        }
    }

    /// The event that ends the invocation `trace_id`.
    pub fn done(trace_id: String) -> (out: Self)
        ensures
            out.trace_id == trace_id,
            out.summary() is InvokeDone,
            out.time is Some,
    {
        Self::new(Et::done(), trace_id)
    }

    /// The event that confirms a command set; it belongs to no invocation.
    pub fn set_graph() -> (out: Self)
        ensures
            out.trace_id@ == Seq::<char>::empty(),
            out.summary() is InvokeSet,
            out.time is Some,
    {
        Self::new(Et::set_graph(), String::new())
    }

    /// The event that reports a malformed submission.
    pub fn client_error(payload: String) -> (out: Self)
        ensures
            out.trace_id@ == "CLIENT_ERROR"@,
            out.et == Some(
                Et::Error(SmeltError { sig: SmeltErrorType::ClientError, error_payload: payload }),
            ),
            out.time is Some,
    {
        let trace_id = String::from_str("CLIENT_ERROR");
        let et = Et::Error(SmeltError { sig: SmeltErrorType::ClientError, error_payload: payload });
        Event::new(et, trace_id)
    }

    /// The event that reports a failure of the engine within the
    /// invocation `trace_id`.
    pub fn runtime_error(payload: String, trace_id: String) -> (out: Self)
        ensures
            out.trace_id == trace_id,
            out.et == Some(
                Et::Error(
                    SmeltError { sig: SmeltErrorType::InternalError, error_payload: payload },
                ),
            ),
            out.time is Some,
    {
        let et = Et::Error(
            SmeltError { sig: SmeltErrorType::InternalError, error_payload: payload },
        );
        Event::new(et, trace_id)
    }

    /// The event that reports a command set that does not hold together.
    pub fn graph_validate_error(payload: String) -> (out: Self)
        ensures
            out.trace_id@ == "VALIDATE_ERROR"@,
            out.et == Some(
                Et::Error(
                    SmeltError { sig: SmeltErrorType::ValidateError, error_payload: payload },
                ),
            ),
            out.time is Some,
    {
        let et = Et::Error(
            SmeltError { sig: SmeltErrorType::ValidateError, error_payload: payload },
        );
        Event::new(et, String::from_str("VALIDATE_ERROR"))
    }
}

impl TestOutputs {
    /// Whether the command exited with 0, as seen in an event.
    pub open spec fn has_passed(&self) -> bool {
        self.exit_code == 0
    }
}

impl CommandFinished {
    /// Whether the command exited with 0.  The outputs must be there.
    pub fn passed(&self) -> (b: bool)
        requires
            self.outputs is Some,
        ensures
            b == (self.outputs->0.exit_code == 0),
    {
        match &self.outputs {
            Some(outputs) => outputs.passed(),
            None => false,
        }
    }
}

impl CommandVariant {
    /// Whether a finished command passed; `None` for any other event.
    pub fn passed(&self) -> (out: Option<bool>)
        requires
            self matches CommandVariant::Finished(finished) ==> finished.outputs is Some,
        ensures
            out == match self {
                CommandVariant::Finished(finished) => Some(finished.outputs->0.exit_code == 0),
                _ => None::<bool>,
            },
    {
        match self {
            CommandVariant::Finished(output) => Some(output.passed()),
            _ => None,
        }
    }
}

impl CommandEvent {
    /// Whether a finished command passed; `None` for any other event.
    /// The event must have a payload.
    pub fn passed(&self) -> (out: Option<bool>)
        requires
            self.command_variant is Some,
            self.command_variant matches Some(CommandVariant::Finished(finished))
                ==> finished.outputs is Some,
        ensures
            out == match self.command_variant {
                Some(CommandVariant::Finished(finished)) => Some(
                    finished.outputs->0.exit_code == 0,
                ),
                _ => None::<bool>,
            },
    {
        match &self.command_variant {
            Some(variant) => variant.passed(),
            None => None,
        }
    }
}

/// The event about `command_ref` with the payload `inner`, made now.
pub fn new_command_event(command_ref: String, inner: CommandVariant, trace_id: String) -> (out:
    Event)
    ensures
        out.trace_id == trace_id,
        out.et == Some(Et::Command(CommandEvent { command_ref, command_variant: Some(inner) })),
        out.time is Some,
{
    Event::from_command_variant(command_ref, trace_id, inner)
}

/// The event about the invocation `trace_id` with the payload
/// `invoke_event`, made now.
pub fn new_invoke_event(trace_id: String, invoke_event: InvokeVariant) -> (out: Event)
    ensures
        out.trace_id == trace_id,
        out.et == Some(Et::Invoke(InvokeEvent { invoke_variant: Some(invoke_event) })),
        out.time is Some,
{
    let et = Et::Invoke(InvokeEvent { invoke_variant: Some(invoke_event) });
    Event::new(et, trace_id)
}

/// The name of the file that keeps the outputs of a command.
pub fn output_asfile() -> (out: &'static str)
    ensures
        out@ == "command.status"@,
{
    "command.status"
}

} // verus!
