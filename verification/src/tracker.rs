//! Following an invocation from its events: where each command stands and
//! whether the invocation is over.

use crate::events::{CommandVariant, Et, Event, ExecutionStart, InvokeVariant, Timestamp};
use crate::text::same_text;
use vstd::prelude::*;
use vstd::string::*;

verus! {

#[derive(Debug, PartialEq, Eq)]
pub enum InvocationTrackerError {
    /// An event about a command came at a time when it cannot happen.
    InvalidStateTransition,
    /// An event about the invocation came at a time when it cannot happen.
    InvalidInvokeST,
    /// An event about the named command that nothing can be made of.
    UncoveredCommand(String),
    /// An event without a time or without a payload.
    EventMissing,
}

/// Which kind of error it is, without what it carries.
#[derive(Debug, PartialEq, Eq, Clone, Copy, Structural)]
pub enum TrackerErrorKind {
    InvalidStateTransition,
    InvalidInvokeST,
    UncoveredCommand,
    EventMissing,
}

impl InvocationTrackerError {
    pub open spec fn kind(&self) -> TrackerErrorKind {
        match self {
            InvocationTrackerError::InvalidStateTransition => TrackerErrorKind::InvalidStateTransition,
            InvocationTrackerError::InvalidInvokeST => TrackerErrorKind::InvalidInvokeST,
            InvocationTrackerError::UncoveredCommand(_) => TrackerErrorKind::UncoveredCommand,
            InvocationTrackerError::EventMissing => TrackerErrorKind::EventMissing,
        }
    }

    /// The text the error is reported with.
    pub fn to_string(&self) -> (out: String)
        ensures
            out@ == match self.kind() {
                TrackerErrorKind::InvalidStateTransition =>
                    "Invalid state transition for a command"@,
                TrackerErrorKind::InvalidInvokeST => "Invalid state transition for an invocation"@,
                TrackerErrorKind::UncoveredCommand => "We don't handle a command variant"@,
                TrackerErrorKind::EventMissing => "We found a message with no payload"@,
            },
    {
        match self {
            InvocationTrackerError::InvalidStateTransition => String::from_str(
                "Invalid state transition for a command",
            ),
            InvocationTrackerError::InvalidInvokeST => String::from_str(
                "Invalid state transition for an invocation",
            ),
            InvocationTrackerError::UncoveredCommand(_) => String::from_str(
                "We don't handle a command variant",
            ),
            InvocationTrackerError::EventMissing => String::from_str(
                "We found a message with no payload",
            ),
        }
    }
}

/// Where the output of a command is kept.
#[derive(Debug, PartialEq, Eq)]
pub enum OutputLookinThang {
    InMemory(String),
    OnDisk(String),
}

/// Where a command stands, with the time it came there and the times
/// before.
#[derive(Debug, PartialEq, Eq, Clone, Copy, Structural)]
pub enum ExecCommandState {
    Scheduled { sched_time: Timestamp },
    Running { sched_time: Timestamp, started_time: Timestamp },
    Cancelled { sched_time: Timestamp, started_time: Timestamp, cancelled_time: Timestamp },
    Completed {
        status_code: i32,
        sched_time: Timestamp,
        started_time: Timestamp,
        ended_time: Timestamp,
    },
    Skipped { sched_time: Timestamp, skipped_time: Timestamp },
}

impl ExecCommandState {
    /// Nothing more can happen to the command.
    pub open spec fn terminal(self) -> bool {
        self is Cancelled || self is Completed || self is Skipped
    }

    /// The state after the command started at `time`, if it can start.
    pub open spec fn after_start(self, time: Timestamp) -> Option<ExecCommandState> {
        match self {
            ExecCommandState::Scheduled { sched_time } => Some(
                ExecCommandState::Running { sched_time, started_time: time },
            ),
            _ => None,
        }
    }

    /// The state after the command completed at `time`, if it can.
    pub open spec fn after_completion(self, time: Timestamp, status_code: i32) -> Option<
        ExecCommandState,
    > {
        match self {
            ExecCommandState::Running { sched_time, started_time } => Some(
                ExecCommandState::Completed {
                    status_code,
                    sched_time,
                    started_time,
                    ended_time: time,
                },
            ),
            _ => None,
        }
    }

    /// The state after the command was cancelled at `time`, if it can be.
    pub open spec fn after_cancel(self, time: Timestamp) -> Option<ExecCommandState> {
        match self {
            ExecCommandState::Running { sched_time, started_time } => Some(
                ExecCommandState::Cancelled { sched_time, started_time, cancelled_time: time },
            ),
            _ => None,
        }
    }

    /// The state after the command was skipped at `time`, if it can be.
    pub open spec fn after_skip(self, time: Timestamp) -> Option<ExecCommandState> {
        match self {
            ExecCommandState::Scheduled { sched_time } => Some(
                ExecCommandState::Skipped { sched_time, skipped_time: time },
            ),
            _ => None,
        }
    }
}

#[derive(Debug, PartialEq, Eq)]
pub struct ExecCommand {
    pub status: ExecCommandState,
    pub stdout: OutputLookinThang,
    pub stderr: OutputLookinThang,
}

impl ExecCommand {
    /// A command that was scheduled at `started_time` and has written
    /// nothing yet.
    pub fn scheduled(started_time: Timestamp) -> (out: Self)
        ensures
            out.status == (ExecCommandState::Scheduled { sched_time: started_time }),
            out.stdout matches OutputLookinThang::InMemory(text) && text@.len() == 0,
            out.stderr matches OutputLookinThang::InMemory(text) && text@.len() == 0,
    {
        Self {
            status: ExecCommandState::Scheduled { sched_time: started_time },
            stderr: OutputLookinThang::InMemory(String::new()),
            stdout: OutputLookinThang::InMemory(String::new()),
        }
    }

    /// The command starts.  Only a scheduled command can.
    pub fn started(&mut self, started_time: Timestamp) -> (out: Result<(), InvocationTrackerError>)
        ensures
            final(self).stdout == old(self).stdout,
            final(self).stderr == old(self).stderr,
            match old(self).status.after_start(started_time) {
                Some(next) => out is Ok && final(self).status == next,
                None => out == Err::<(), InvocationTrackerError>(
                    InvocationTrackerError::InvalidStateTransition,
                ) && final(self).status == old(self).status,
            },
    {
        match self.status {
            ExecCommandState::Scheduled { sched_time } => {
                self.status = ExecCommandState::Running { sched_time, started_time };
                Ok(())
            },
            _ => Err(InvocationTrackerError::InvalidStateTransition),
        }
    }

    /// The command ran to its end.  Only a running command can.
    pub fn completed(&mut self, completed_time: Timestamp, status_code: i32) -> (out: Result<
        (),
        InvocationTrackerError,
    >)
        ensures
            final(self).stdout == old(self).stdout,
            final(self).stderr == old(self).stderr,
            match old(self).status.after_completion(completed_time, status_code) {
                Some(next) => out is Ok && final(self).status == next,
                None => out == Err::<(), InvocationTrackerError>(
                    InvocationTrackerError::InvalidStateTransition,
                ) && final(self).status == old(self).status,
            },
    {
        match self.status {
            ExecCommandState::Running { sched_time, started_time } => {
                self.status = ExecCommandState::Completed {
                    ended_time: completed_time,
                    sched_time,
                    started_time,
                    status_code,
                };
                Ok(())
            },
            _ => Err(InvocationTrackerError::InvalidStateTransition),
        }
    }

    /// The command is cancelled.  Only a running command can be.
    pub fn cancelled(&mut self, cancelled_time: Timestamp) -> (out: Result<
        (),
        InvocationTrackerError,
    >)
        ensures
            final(self).stdout == old(self).stdout,
            final(self).stderr == old(self).stderr,
            match old(self).status.after_cancel(cancelled_time) {
                Some(next) => out is Ok && final(self).status == next,
                None => out == Err::<(), InvocationTrackerError>(
                    InvocationTrackerError::InvalidStateTransition,
                ) && final(self).status == old(self).status,
            },
    {
        match self.status {
            ExecCommandState::Running { sched_time, started_time } => {
                self.status = ExecCommandState::Cancelled { started_time, sched_time, cancelled_time };
                Ok(())
            },
            _ => Err(InvocationTrackerError::InvalidStateTransition),
        }
    }

    /// The command is skipped.  Only a scheduled command can be: a skip
    /// never follows a start.
    pub fn skipped(&mut self, skipped_time: Timestamp) -> (out: Result<(), InvocationTrackerError>)
        ensures
            final(self).stdout == old(self).stdout,
            final(self).stderr == old(self).stderr,
            match old(self).status.after_skip(skipped_time) {
                Some(next) => out is Ok && final(self).status == next,
                None => out == Err::<(), InvocationTrackerError>(
                    InvocationTrackerError::InvalidStateTransition,
                ) && final(self).status == old(self).status,
            },
    {
        match self.status {
            ExecCommandState::Scheduled { sched_time } => {
                self.status = ExecCommandState::Skipped { sched_time, skipped_time };
                Ok(())
            },
            _ => Err(InvocationTrackerError::InvalidStateTransition),
        }
    }
}

/// Who runs an invocation, and where.
#[derive(Debug, PartialEq, Eq)]
pub struct InvokerMetaData {
    pub path: String,
    pub username: String,
    pub hostname: String,
}

impl Clone for InvokerMetaData {
    fn clone(&self) -> (out: Self)
        ensures
            out == *self,
    {
        InvokerMetaData {
            path: self.path.clone(),
            username: self.username.clone(),
            hostname: self.hostname.clone(),
        }
    }
}

/// Where an invocation stands.
#[derive(Debug, PartialEq, Eq)]
pub enum InvocationState {
    Uninit,
    Running(InvokerMetaData),
    Completed(InvokerMetaData),
}

impl InvocationState {
    /// The invocation starts.  Only one that has not started can.
    pub fn to_start(&mut self, var: ExecutionStart) -> (out: Result<(), InvocationTrackerError>)
        ensures
            match *old(self) {
                InvocationState::Uninit => out is Ok && *final(self) == InvocationState::Running(
                    InvokerMetaData {
                        path: var.smelt_root,
                        username: var.username,
                        hostname: var.hostname,
                    },
                ),
                _ => out == Err::<(), InvocationTrackerError>(
                    InvocationTrackerError::InvalidInvokeST,
                ) && *final(self) == *old(self),
            },
    {
        match self {
            InvocationState::Uninit => {
                *self = InvocationState::Running(
                    InvokerMetaData {
                        path: var.smelt_root,
                        username: var.username,
                        hostname: var.hostname,
                    },
                );
                Ok(())
            },
            _ => Err(InvocationTrackerError::InvalidInvokeST),
        }
    }

    /// The invocation is over.  Only one that runs can end.
    pub fn to_completed(&mut self) -> (out: Result<(), InvocationTrackerError>)
        ensures
            match *old(self) {
                InvocationState::Running(meta) => out is Ok && *final(self)
                    == InvocationState::Completed(meta),
                _ => out == Err::<(), InvocationTrackerError>(
                    InvocationTrackerError::InvalidInvokeST,
                ) && *final(self) == *old(self),
            },
    {
        let meta = match self {
            InvocationState::Running(inner) => inner.clone(),
            _ => {
                return Err(InvocationTrackerError::InvalidInvokeST);
            },
        };
        *self = InvocationState::Completed(meta);
        Ok(())
    }

    /// Takes an event about the invocation: its start, its end, or the
    /// confirmation of a command set, which changes nothing.
    pub fn process(&mut self, invoke: &InvokeVariant) -> (out: Result<(), InvocationTrackerError>)
        ensures
            match *invoke {
                InvokeVariant::Start(started) => match *old(self) {
                    InvocationState::Uninit => out is Ok && (*final(self)
                        matches InvocationState::Running(meta) && meta.path == started.smelt_root
                        && meta.username == started.username && meta.hostname
                        == started.hostname),
                    _ => out == Err::<(), InvocationTrackerError>(
                        InvocationTrackerError::InvalidInvokeST,
                    ) && *final(self) == *old(self),
                },
                InvokeVariant::Done(_) => match *old(self) {
                    InvocationState::Running(meta) => out is Ok && *final(self)
                        == InvocationState::Completed(meta),
                    _ => out == Err::<(), InvocationTrackerError>(
                        InvocationTrackerError::InvalidInvokeST,
                    ) && *final(self) == *old(self),
                },
                InvokeVariant::GraphSet(_) => out is Ok && *final(self) == *old(self),
            },
    {
        match invoke {
            InvokeVariant::Start(started) => {
                let copy = ExecutionStart {
                    hostname: started.hostname.clone(),
                    username: started.username.clone(),
                    smelt_root: started.smelt_root.clone(),
                    git_hash: started.git_hash.clone(),
                    git_branch: started.git_branch.clone(),
                    git_repo: started.git_repo.clone(),
                };
                self.to_start(copy)
            },
            InvokeVariant::Done(_) => self.to_completed(),
            InvokeVariant::GraphSet(_) => Ok(()),
        }
    }
}

/// The index of the first entry at or after `from` whose name is `name`,
/// or the number of entries if there is none.
pub open spec fn entry_index_from<T>(entries: Seq<(String, T)>, name: Seq<char>, from: int) -> int
    decreases entries.len() - from,
{
    if from < 0 || from >= entries.len() {
        entries.len() as int
    } else if entries[from].0@ == name {
        from
    } else {
        entry_index_from(entries, name, from + 1)
    }
}

/// Finds the entry called `name`.
fn find_entry<T>(entries: &Vec<(String, T)>, name: &str) -> (out: Option<usize>)
    ensures
        match out {
            Some(i) => i < entries.len() && i == entry_index_from(entries@, name@, 0),
            None => entry_index_from(entries@, name@, 0) == entries.len(),
        },
{
    let mut i: usize = 0;
    while i < entries.len()
        invariant
            i <= entries.len(),
            entry_index_from(entries@, name@, i as int) == entry_index_from(entries@, name@, 0),
        decreases entries.len() - i,
    {
        if same_text(entries[i].0.as_str(), name) {
            return Some(i);
        }
        i += 1;
    }
    None
}

/// What the tracker makes of an event about a command that stands in
/// `state`, or of which nothing is known yet.  A command need not be
/// announced before it starts or is skipped.
pub open spec fn followed(state: Option<ExecCommandState>, variant: CommandVariant, time: Timestamp) -> Result<
    ExecCommandState,
    TrackerErrorKind,
> {
    match variant {
        CommandVariant::Scheduled(_) => match state {
            None => Ok(ExecCommandState::Scheduled { sched_time: time }),
            Some(s) => Ok(s),
        },
        CommandVariant::Started(_) => match state {
            None => Ok(ExecCommandState::Running { sched_time: time, started_time: time }),
            Some(s) => match s.after_start(time) {
                Some(next) => Ok(next),
                None => Err(TrackerErrorKind::InvalidStateTransition),
            },
        },
        CommandVariant::Skipped(_) => match state {
            None => Ok(ExecCommandState::Skipped { sched_time: time, skipped_time: time }),
            Some(s) => match s.after_skip(time) {
                Some(next) => Ok(next),
                None => Err(TrackerErrorKind::InvalidStateTransition),
            },
        },
        CommandVariant::Finished(finished) => match finished.outputs {
            None => Err(TrackerErrorKind::UncoveredCommand),
            Some(outputs) => match state {
                None => Err(TrackerErrorKind::InvalidStateTransition),
                Some(s) => match s.after_completion(time, outputs.exit_code) {
                    Some(next) => Ok(next),
                    None => Err(TrackerErrorKind::InvalidStateTransition),
                },
            },
        },
        CommandVariant::Cancelled(_) => match state {
            None => Err(TrackerErrorKind::InvalidStateTransition),
            Some(s) => match s.after_cancel(time) {
                Some(next) => Ok(next),
                None => Err(TrackerErrorKind::InvalidStateTransition),
            },
        },
        CommandVariant::Stdout(_) | CommandVariant::Profile(_) => match state {
            Some(s) => if s is Running {
                Ok(s)
            } else {
                Err(TrackerErrorKind::InvalidStateTransition)
            },
            None => Err(TrackerErrorKind::InvalidStateTransition),
        },
    }
}

/// Follows everything that happens within one invocation.
pub struct SingleInvocationTracker {
    invoker: InvocationState,
    command_map: Vec<(String, ExecCommand)>,
}

impl SingleInvocationTracker {
    /// Where the invocation stands.
    pub closed spec fn invoker(&self) -> InvocationState {
        self.invoker
    }

    /// Where the command called `name` stands, if anything is known of it.
    pub closed spec fn command_state(&self, name: Seq<char>) -> Option<ExecCommandState> {
        let i = entry_index_from(self.command_map@, name, 0);
        if i < self.command_map@.len() {
            Some(self.command_map@[i].1.status)
        } else {
            None
        }
    }

    /// A tracker that has seen nothing.
    pub fn new() -> (out: Self)
        ensures
            out.invoker() is Uninit,
            forall|name: Seq<char>| (#[trigger] out.command_state(name)) is None,
            out.is_fresh(),
    {
        SingleInvocationTracker { invoker: InvocationState::Uninit, command_map: Vec::new() }
    }

    /// Where the command called `name` stands, if anything is known of it.
    pub fn state_of(&self, name: &str) -> (out: Option<ExecCommandState>)
        ensures
            out == self.command_state(name@),
    {
        match find_entry(&self.command_map, name) {
            Some(i) => Some(self.command_map[i].1.status),
            None => None,
        }
    }

    /// Whether the invocation is over.
    pub fn is_completed(&self) -> (b: bool)
        ensures
            b == (self.invoker() is Completed),
    {
        match &self.invoker {
            InvocationState::Completed(_) => true,
            _ => false,
        }
    }

    /// Takes an event about the command called `name`.
    fn track_command(&mut self, name: &str, variant: &CommandVariant, time: Timestamp) -> (out:
        Result<(), InvocationTrackerError>)
        ensures
            final(self).invoker() == old(self).invoker(),
            forall|other: Seq<char>|
                other != name@ ==> (#[trigger] final(self).command_state(other)) == old(self).command_state(other),
            match followed(old(self).command_state(name@), *variant, time) {
                Ok(next) => out is Ok && final(self).command_state(name@) == Some(next),
                Err(kind) => out matches Err(e) && e.kind() == kind && final(self).command_state(
                    name@,
                ) == old(self).command_state(name@),
            },
    {
        let ghost before = self.command_map@;
        let found = find_entry(&self.command_map, name);
        let state = match found {
            Some(i) => Some(self.command_map[i].1.status),
            None => None,
        };
        let next = match variant {
            CommandVariant::Scheduled(_) => match state {
                None => ExecCommandState::Scheduled { sched_time: time },
                Some(s) => s,
            },
            CommandVariant::Started(_) => match state {
                None => ExecCommandState::Running { sched_time: time, started_time: time },
                Some(ExecCommandState::Scheduled { sched_time }) => ExecCommandState::Running {
                    sched_time,
                    started_time: time,
                },
                Some(_) => {
                    return Err(InvocationTrackerError::InvalidStateTransition);
                },
            },
            CommandVariant::Skipped(_) => match state {
                None => ExecCommandState::Skipped { sched_time: time, skipped_time: time },
                Some(ExecCommandState::Scheduled { sched_time }) => ExecCommandState::Skipped {
                    sched_time,
                    skipped_time: time,
                },
                Some(_) => {
                    return Err(InvocationTrackerError::InvalidStateTransition);
                },
            },
            CommandVariant::Finished(finished) => match &finished.outputs {
                None => {
                    return Err(InvocationTrackerError::UncoveredCommand(String::from_str(name)));
                },
                Some(outputs) => match state {
                    Some(ExecCommandState::Running { sched_time, started_time }) =>
                        ExecCommandState::Completed {
                            status_code: outputs.exit_code,
                            sched_time,
                            started_time,
                            ended_time: time,
                        },
                    _ => {
                        return Err(InvocationTrackerError::InvalidStateTransition);
                    },
                },
            },
            CommandVariant::Cancelled(_) => match state {
                Some(ExecCommandState::Running { sched_time, started_time }) =>
                    ExecCommandState::Cancelled { sched_time, started_time, cancelled_time: time },
                _ => {
                    return Err(InvocationTrackerError::InvalidStateTransition);
                },
            },
            CommandVariant::Stdout(_) => match state {
                Some(ExecCommandState::Running { sched_time, started_time }) =>
                    ExecCommandState::Running { sched_time, started_time },
                _ => {
                    return Err(InvocationTrackerError::InvalidStateTransition);
                },
            },
            CommandVariant::Profile(_) => match state {
                Some(ExecCommandState::Running { sched_time, started_time }) =>
                    ExecCommandState::Running { sched_time, started_time },
                _ => {
                    return Err(InvocationTrackerError::InvalidStateTransition);
                },
            },
        };
        match found {
            Some(i) => {
                let mut entry = ExecCommand::scheduled(time);
                entry.status = next;
                let kept = self.command_map[i].0.clone();
                self.command_map.set(i, (kept, entry));
                proof {
                    let after = self.command_map@;
                    lemma_same_names(before, after, name@, 0);
                    lemma_entry_found(before, name@, 0);
                    assert forall|other: Seq<char>| other != name@ implies (
                    #[trigger] self.command_state(other)) == old(self).command_state(other) by {
                        lemma_same_names(before, after, other, 0);
                        lemma_entry_found(before, other, 0);
                        let j = entry_index_from(before, other, 0);
                        if j < before.len() {
                            assert(j != i);
                            assert(after[j] == before[j]);
                        }
                    }
                }
            },
            None => {
                let mut entry = ExecCommand::scheduled(time);
                entry.status = next;
                self.command_map.push((String::from_str(name), entry));
                proof {
                    let after = self.command_map@;
                    lemma_pushed_name(before, after, name@, 0);
                    assert forall|other: Seq<char>| other != name@ implies (
                    #[trigger] self.command_state(other)) == old(self).command_state(other) by {
                        lemma_pushed_name(before, after, other, 0);
                        lemma_entry_found(before, other, 0);
                        let j = entry_index_from(before, other, 0);
                        if j < before.len() {
                            assert(after[j] == before[j]);
                        }
                    }
                }
            },
        }
        Ok(())
    }

    /// What taking `event` does to a tracker: `before` is the tracker as it
    /// was, `after` as it is then, and `out` what was answered.  An event
    /// about the invocation moves the invocation, an event about a command
    /// moves that command; an error is an event like any other and moves
    /// nothing.  An event that cannot happen where things stand is refused
    /// and changes nothing.
    pub open spec fn took(
        before: &SingleInvocationTracker,
        event: &Event,
        after: &SingleInvocationTracker,
        out: Result<(), InvocationTrackerError>,
    ) -> bool {
            match (event.time, event.et) {
                (Some(time), Some(Et::Command(command))) => match command.command_variant {
                    Some(variant) => {
                        &&& after.invoker() == before.invoker()
                        &&& forall|other: Seq<char>|
                            other != command.command_ref@ ==> (#[trigger] after.command_state(other)) == before.command_state(other)
                        &&& match followed(
                            before.command_state(command.command_ref@),
                            variant,
                            time,
                        ) {
                            Ok(next) => out is Ok && after.command_state(
                                command.command_ref@,
                            ) == Some(next),
                            Err(kind) => out matches Err(e) && e.kind() == kind && after.command_state(command.command_ref@) == before.command_state(
                                command.command_ref@,
                            ),
                        }
                    },
                    None => out == Err::<(), InvocationTrackerError>(
                        InvocationTrackerError::EventMissing,
                    ) && *after == *before,
                },
                (Some(_), Some(Et::Invoke(invoke))) => match invoke.invoke_variant {
                    Some(variant) => {
                        &&& forall|name: Seq<char>|
                            (#[trigger] after.command_state(name)) == before.command_state(
                                name,
                            )
                        &&& match (variant, before.invoker()) {
                            (InvokeVariant::Start(start), InvocationState::Uninit) => out is Ok
                                && (after.invoker() matches InvocationState::Running(meta)
                                && meta.path == start.smelt_root && meta.username
                                == start.username && meta.hostname == start.hostname),
                            (InvokeVariant::Done(_), InvocationState::Running(meta)) => out is Ok
                                && after.invoker() == InvocationState::Completed(meta),
                            (InvokeVariant::GraphSet(_), _) => out is Ok && after.invoker()
                                == before.invoker(),
                            _ => out == Err::<(), InvocationTrackerError>(
                                InvocationTrackerError::InvalidInvokeST,
                            ) && after.invoker() == before.invoker(),
                        }
                    },
                    None => out == Err::<(), InvocationTrackerError>(
                        InvocationTrackerError::EventMissing,
                    ) && *after == *before,
                },
                (Some(_), Some(Et::Error(_))) => out is Ok && *after == *before,
                _ => out == Err::<(), InvocationTrackerError>(InvocationTrackerError::EventMissing)
                    && *after == *before,
            }
    }

    /// A tracker that has seen nothing.
    pub open spec fn is_fresh(&self) -> bool {
        &&& self.invoker() is Uninit
        &&& forall|name: Seq<char>| (#[trigger] self.command_state(name)) is None
    }

    /// Takes one event of the invocation.  An event about the invocation
    /// moves the invocation, an event about a command moves that command;
    /// an error is an event like any other and moves nothing.  An event
    /// that cannot happen where things stand is refused and changes nothing.
    pub fn track(&mut self, event: &Event) -> (out: Result<(), InvocationTrackerError>)
        ensures
            Self::took(old(self), event, final(self), out),
    {
        let time = match event.time {
            Some(time) => time,
            None => {
                return Err(InvocationTrackerError::EventMissing);
            },
        };
        match &event.et {
            None => Err(InvocationTrackerError::EventMissing),
            Some(Et::Invoke(invoke)) => match &invoke.invoke_variant {
                Some(variant) => self.invoker.process(variant),
                None => Err(InvocationTrackerError::EventMissing),
            },
            Some(Et::Command(command)) => match &command.command_variant {
                Some(variant) => self.track_command(command.command_ref.as_str(), variant, time),
                None => Err(InvocationTrackerError::EventMissing),
            },
            Some(Et::Error(_)) => Ok(()),
        }
    }
}

proof fn lemma_same_names<T>(before: Seq<(String, T)>, after: Seq<(String, T)>, name: Seq<char>, from: int)
    requires
        before.len() == after.len(),
        forall|j: int| 0 <= j < before.len() ==> (#[trigger] before[j]).0@ == after[j].0@,
        0 <= from <= before.len(),
    ensures
        entry_index_from(after, name, from) == entry_index_from(before, name, from),
    decreases before.len() - from,
{
    if from < before.len() {
        assert(before[from].0@ == after[from].0@);
        if before[from].0@ != name {
            lemma_same_names(before, after, name, from + 1);
        }
    }
}

proof fn lemma_pushed_name<T>(before: Seq<(String, T)>, after: Seq<(String, T)>, name: Seq<char>, from: int)
    requires
        after.len() == before.len() + 1,
        forall|j: int| 0 <= j < before.len() ==> (#[trigger] before[j]) == after[j],
        0 <= from <= before.len(),
    ensures
        entry_index_from(before, name, from) < before.len() ==> entry_index_from(after, name, from)
            == entry_index_from(before, name, from),
        entry_index_from(before, name, from) == before.len() ==> entry_index_from(
            after,
            name,
            from,
        ) == if after[before.len() as int].0@ == name {
            before.len() as int
        } else {
            after.len() as int
        },
    decreases before.len() - from,
{
    if from < before.len() {
        assert(before[from] == after[from]);
        if before[from].0@ != name {
            lemma_pushed_name(before, after, name, from + 1);
        }
    } else {
        assert(entry_index_from(after, name, from + 1) == after.len());
    }
}

proof fn lemma_entry_found<T>(entries: Seq<(String, T)>, name: Seq<char>, from: int)
    requires
        0 <= from <= entries.len(),
    ensures
        from <= entry_index_from(entries, name, from) <= entries.len(),
        entry_index_from(entries, name, from) < entries.len() ==> entries[entry_index_from(
            entries,
            name,
            from,
        )].0@ == name,
    decreases entries.len() - from,
{
    if from < entries.len() && entries[from].0@ != name {
        lemma_entry_found(entries, name, from + 1);
    }
}

/// Something that wants to know of every event.
pub trait Subscriber {
    /// Takes one event.
    fn recv_event(&mut self, event: &Event) -> Result<(), InvocationTrackerError>;

    /// Takes note that no more events will come.
    fn exit(&mut self) {
    }
}

impl Subscriber for SingleInvocationTracker {
    fn recv_event(&mut self, event: &Event) -> (out: Result<(), InvocationTrackerError>)
        ensures
            SingleInvocationTracker::took(old(self), event, final(self), out),
    {
        self.track(event)
    }
}

/// Follows every invocation, each by its trace id.
pub struct RunningInvocationTracker {
    all_invocations: Vec<(String, SingleInvocationTracker)>,
}

impl RunningInvocationTracker {
    /// How many invocations are followed.
    pub closed spec fn count(&self) -> nat {
        self.all_invocations@.len()
    }

    /// Whether the invocation `trace_id` is followed.
    pub closed spec fn follows(&self, trace_id: Seq<char>) -> bool {
        entry_index_from(self.all_invocations@, trace_id, 0) < self.all_invocations@.len()
    }

    /// The tracker of the invocation `trace_id`.
    pub closed spec fn tracker(&self, trace_id: Seq<char>) -> SingleInvocationTracker {
        self.all_invocations@[entry_index_from(self.all_invocations@, trace_id, 0)].1
    }

    /// What taking `event` does to the trackers: `before` they were as
    /// they are `after` but for the tracker of the event's invocation.
    /// That one was made afresh if the invocation was not followed yet,
    /// and it took the event, with `out` as the answer.
    pub open spec fn took(
        before: &RunningInvocationTracker,
        event: &Event,
        after: &RunningInvocationTracker,
        out: Result<(), InvocationTrackerError>,
    ) -> bool {
        &&& after.follows(event.trace_id@)
        &&& before.follows(event.trace_id@) ==> after.count() == before.count()
        &&& !before.follows(event.trace_id@) ==> after.count() == before.count() + 1
        &&& exists|was: SingleInvocationTracker|
            {
                &&& before.follows(event.trace_id@) ==> was == before.tracker(event.trace_id@)
                &&& !before.follows(event.trace_id@) ==> was.is_fresh()
                &&& #[trigger] SingleInvocationTracker::took(
                    &was,
                    event,
                    &after.tracker(event.trace_id@),
                    out,
                )
            }
        &&& after.others_as_in(before, event.trace_id@)
    }

    /// Every invocation but `trace_id` is followed as in `before`, if at
    /// all, and its tracker is as it was.
    pub open spec fn others_as_in(&self, before: &Self, trace_id: Seq<char>) -> bool {
        forall|other: Seq<char>|
            other != trace_id ==> (#[trigger] self.follows(other)) == before.follows(other) && (
            before.follows(other) ==> self.tracker(other) == before.tracker(other))
    }

    pub fn new() -> (out: Self)
        ensures
            out.count() == 0,
    {
        RunningInvocationTracker { all_invocations: Vec::new() }
    }

    /// The tracker of the invocation `trace_id`, if it is followed.
    pub fn get(&self, trace_id: &str) -> (out: Option<&SingleInvocationTracker>)
        ensures
            match out {
                Some(tracker) => self.follows(trace_id@) && *tracker == self.tracker(trace_id@),
                None => !self.follows(trace_id@),
            },
    {
        match find_entry(&self.all_invocations, trace_id) {
            Some(i) => Some(&self.all_invocations[i].1),
            None => None,
        }
    }

    /// Hands the event to the tracker of its invocation, which is made if
    /// this is the first event of the invocation.
    pub fn track(&mut self, event: &Event) -> (out: Result<(), InvocationTrackerError>)
        ensures
            final(self).follows(event.trace_id@),
            old(self).follows(event.trace_id@) ==> final(self).count() == old(self).count(),
            !old(self).follows(event.trace_id@) ==> final(self).count() == old(self).count() + 1,
            exists|before: SingleInvocationTracker|
                {
                    &&& old(self).follows(event.trace_id@) ==> before == old(self).tracker(
                        event.trace_id@,
                    )
                    &&& !old(self).follows(event.trace_id@) ==> before.is_fresh()
                    &&& #[trigger] SingleInvocationTracker::took(
                        &before,
                        event,
                        &final(self).tracker(event.trace_id@),
                        out,
                    )
                },
            final(self).others_as_in(old(self), event.trace_id@),
            Self::took(old(self), event, final(self), out),
    {
        let found = find_entry(&self.all_invocations, event.trace_id.as_str());
        let ghost before = self.all_invocations@;
        match found {
            Some(i) => {
                let mut tracker = SingleInvocationTracker::new();
                let kept = self.all_invocations[i].0.clone();
                let mut entry = (kept, tracker);
                std::mem::swap(&mut entry, &mut self.all_invocations[i]);
                let (name, mut current) = entry;
                let ghost was = current;
                let out = current.track(event);
                self.all_invocations.set(i, (name, current));
                proof {
                    let after = self.all_invocations@;
                    lemma_same_names(before, after, event.trace_id@, 0);
                    lemma_entry_found(before, event.trace_id@, 0);
                    assert(was == old(self).tracker(event.trace_id@));
                    assert(SingleInvocationTracker::took(
                        &was,
                        event,
                        &self.tracker(event.trace_id@),
                        out,
                    ));
                    assert forall|other: Seq<char>| other != event.trace_id@ implies (
                    #[trigger] self.follows(other)) == old(self).follows(other) && (old(self).follows(other) ==> self.tracker(other) == old(self).tracker(other)) by {
                        lemma_same_names(before, after, other, 0);
                        lemma_entry_found(before, other, 0);
                        let j = entry_index_from(before, other, 0);
                        if j < before.len() {
                            assert(j != i);
                            assert(after[j] == before[j]);
                        }
                    }
                    assert(self.others_as_in(old(self), event.trace_id@));
                    assert(Self::took(old(self), event, self, out));
                }
                out
            },
            None => {
                let mut tracker = SingleInvocationTracker::new();
                let ghost was = tracker;
                let out = tracker.track(event);
                self.all_invocations.push((event.trace_id.clone(), tracker));
                proof {
                    let after = self.all_invocations@;
                    lemma_pushed_name(before, after, event.trace_id@, 0);
                    assert(SingleInvocationTracker::took(
                        &was,
                        event,
                        &self.tracker(event.trace_id@),
                        out,
                    ));
                    assert forall|other: Seq<char>| other != event.trace_id@ implies (
                    #[trigger] self.follows(other)) == old(self).follows(other) && (old(self).follows(other) ==> self.tracker(other) == old(self).tracker(other)) by {
                        lemma_pushed_name(before, after, other, 0);
                        lemma_entry_found(before, other, 0);
                        let j = entry_index_from(before, other, 0);
                        if j < before.len() {
                            assert(after[j] == before[j]);
                        }
                    }
                    assert(self.others_as_in(old(self), event.trace_id@));
                    assert(Self::took(old(self), event, self, out));
                }
                out
            },
        }
    }
}

impl Subscriber for RunningInvocationTracker {
    fn recv_event(&mut self, event: &Event) -> (out: Result<(), InvocationTrackerError>)
        ensures
            RunningInvocationTracker::took(old(self), event, final(self), out),
    {
        self.track(event)
    }
}

} // verus!
