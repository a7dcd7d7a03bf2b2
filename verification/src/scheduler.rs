//! The life of one invocation: which commands were asked for, which of them
//! run, which are skipped, and when all is done.
//!
//! The scheduler decides and the caller acts.  `next_step` says what is
//! due.  For a command that is admitted the caller prepares the workspace,
//! reports the start with `command_started` once it stands, runs the
//! command, and reports how it ended with `command_finished`; a workspace
//! that cannot be prepared is reported with `command_finished` alone.
//!
//! All invocations of an engine take their permits from one [`Budget`],
//! which has as many as the engine has job slots.
//!
//! Commands are known by their index in the command set; an edge leads
//! from a command to one it depends on.

use crate::dag::{in_range, is_layout, is_path, is_ranking, lemma_edges_view, lemma_path_descends};
use vstd::prelude::*;

verus! {

/// Where a command stands within an invocation.
#[derive(Clone, Copy, Debug, PartialEq, Eq, Structural)]
pub enum NodeState {
    /// Nobody asked for the command.
    Idle,
    /// Asked for, by the caller or by a dependent; not yet decided.
    Scheduled,
    /// Its permits are taken and its workspace is being prepared; it has
    /// not started yet.
    Admitted,
    /// Its workspace stands, its start was emitted, and it runs.
    Running,
    /// The executor ran it to its end.
    Completed { exit_code: i32 },
    /// The executor could not run it; `started` says whether that came to
    /// light after its start or before.
    Failed { started: bool },
    /// It was stopped while it ran.
    Cancelled,
    /// A dependency did not pass, so it was never run.
    Skipped,
}

impl NodeState {
    /// Nothing more will happen to the command.
    pub open spec fn terminal(self) -> bool {
        self is Completed || self is Failed || self is Cancelled || self is Skipped
    }

    /// The command ran and exited with 0.
    pub open spec fn passed(self) -> bool {
        self == (NodeState::Completed { exit_code: 0 })
    }

    /// The command ended without passing: it exited with another code, the
    /// executor failed, it was cancelled, or it was skipped.
    pub open spec fn failing(self) -> bool {
        self.terminal() && !self.passed()
    }

    /// The command was handed to the executor at some point.
    pub open spec fn admitted(self) -> bool {
        self is Admitted || self is Running || self is Completed || self is Failed
            || self is Cancelled
    }

    /// The start of the command was emitted at some point.
    pub open spec fn started(self) -> bool {
        self is Running || self is Completed || self is Cancelled || self == (NodeState::Failed {
            started: true,
        })
    }

    /// The command holds its permits.
    pub open spec fn holds(self) -> bool {
        self is Admitted || self is Running
    }

    /// The state as far as the events tell it: that a command was admitted
    /// is not emitted.
    pub open spec fn emitted(self) -> NodeState {
        if self is Admitted {
            NodeState::Scheduled
        } else {
            self
        }
    }

    pub fn is_terminal(&self) -> (b: bool)
        ensures
            b == self.terminal(),
    {
        match self {
            NodeState::Completed { .. }
            | NodeState::Failed { .. }
            | NodeState::Cancelled
            | NodeState::Skipped => true,
            _ => false,
        }
    }

    pub fn has_passed(&self) -> (b: bool)
        ensures
            b == self.passed(),
    {
        match self {
            NodeState::Completed { exit_code } => *exit_code == 0,
            _ => false,
        }
    }

    pub fn is_failing(&self) -> (b: bool)
        ensures
            b == self.failing(),
    {
        self.is_terminal() && !self.has_passed()
    }

    pub fn holds_permits(&self) -> (b: bool)
        ensures
            b == self.holds(),
    {
        match self {
            NodeState::Admitted | NodeState::Running => true,
            _ => false,
        }
    }
}

/// How the executor came back from a command.
#[derive(Clone, Copy, Debug, PartialEq, Eq, Structural)]
pub enum Outcome {
    Exited { exit_code: i32 },
    ExecutorFailed,
    /// The command was stopped before it came to its end.
    Cancelled,
}

impl Outcome {
    /// The state that a command in state `from` is left in.
    pub open spec fn state(self, from: NodeState) -> NodeState {
        match self {
            Outcome::Exited { exit_code } => NodeState::Completed { exit_code },
            Outcome::ExecutorFailed => NodeState::Failed { started: from is Running },
            Outcome::Cancelled => NodeState::Cancelled,
        }
    }

    /// What is emitted for the command.
    pub open spec fn kind(self) -> Kind {
        match self {
            Outcome::Exited { exit_code } => Kind::Finished { exit_code: exit_code as int },
            Outcome::ExecutorFailed => Kind::Failed,
            Outcome::Cancelled => Kind::Cancelled,
        }
    }

    /// Whether a command in state `from` can end this way: a running
    /// command in any way, one that has not started only by a failure of
    /// the executor.
    pub open spec fn fits(self, from: NodeState) -> bool {
        from is Running || (from is Admitted && self is ExecutorFailed)
    }
}

/// What can be emitted about one command.
pub enum Kind {
    Started,
    /// A line of output or a profile sample.
    Output,
    Finished { exit_code: int },
    /// The executor failed; reported as an error of the invocation.
    Failed,
    Cancelled,
    Skipped,
}

/// What an invocation emits, in order.
pub enum TraceEvent {
    Command { command: int, kind: Kind },
    /// The invocation is over.
    Done,
}

/// What is due next.
#[derive(Clone, Copy, Debug, PartialEq, Eq, Structural)]
pub enum Step {
    /// The permits of the command are taken: prepare its workspace, and
    /// report its start once the workspace stands.  Nothing is emitted yet.
    Start { command: usize },
    /// The command is skipped, which is emitted.
    Skip { command: usize },
    /// Nothing can be decided before permits come free.
    Wait,
    /// All that was asked for has ended; the end of the invocation is emitted.
    Finish,
}

/// Every dependency of `i` has ended.
pub open spec fn deps_terminal(e: Seq<Seq<usize>>, st: Seq<NodeState>, i: int) -> bool {
    forall|k: int| 0 <= k < e[i].len() ==> st[(#[trigger] e[i][k]) as int].terminal()
}

/// Every dependency of `i` has passed.
pub open spec fn deps_passed(e: Seq<Seq<usize>>, st: Seq<NodeState>, i: int) -> bool {
    forall|k: int| 0 <= k < e[i].len() ==> st[(#[trigger] e[i][k]) as int].passed()
}

/// Some dependency of `i` has ended without passing.
pub open spec fn some_dep_failing(e: Seq<Seq<usize>>, st: Seq<NodeState>, i: int) -> bool {
    exists|k: int| 0 <= k < e[i].len() && st[(#[trigger] e[i][k]) as int].failing()
}

/// Every dependency of `i` was asked for.
pub open spec fn deps_wanted(e: Seq<Seq<usize>>, st: Seq<NodeState>, i: int) -> bool {
    forall|k: int| 0 <= k < e[i].len() ==> !(st[(#[trigger] e[i][k]) as int] is Idle)
}

/// `i` can be decided now: it waits, its dependencies have all ended, and
/// either one of them failed or there is room for it to run.
pub open spec fn actionable(
    e: Seq<Seq<usize>>,
    st: Seq<NodeState>,
    permits: Seq<u64>,
    available: u64,
    i: int,
) -> bool {
    &&& st[i] is Scheduled
    &&& deps_terminal(e, st, i)
    &&& (some_dep_failing(e, st, i) || permits[i] <= available)
}

/// The permits held by those of the first `upto` commands that hold any.
pub open spec fn held_permits(st: Seq<NodeState>, permits: Seq<u64>, upto: int) -> int
    decreases upto,
{
    if upto <= 0 {
        0
    } else {
        held_permits(st, permits, upto - 1) + if st[upto - 1].holds() {
            permits[upto - 1] as int
        } else {
            0int
        }
    }
}

/// How far a command is from its end, in steps.
pub open spec fn steps_left(s: NodeState) -> int {
    if s is Scheduled {
        3
    } else if s is Admitted {
        2
    } else if s is Running {
        1
    } else {
        0
    }
}

/// How far the first `upto` commands are from their end, together.
pub open spec fn unfinished(st: Seq<NodeState>, upto: int) -> int
    decreases upto,
{
    if upto <= 0 {
        0
    } else {
        unfinished(st, upto - 1) + steps_left(st[upto - 1])
    }
}

/// The life of a command as its events tell it: the state after `kind` is
/// emitted in state `s`, if that may happen at all.
pub open spec fn after(s: NodeState, kind: Kind) -> Option<NodeState> {
    match (s, kind) {
        (NodeState::Scheduled, Kind::Started) => Some(NodeState::Running),
        (NodeState::Scheduled, Kind::Skipped) => Some(NodeState::Skipped),
        (NodeState::Scheduled, Kind::Failed) => Some(NodeState::Failed { started: false }),
        (NodeState::Running, Kind::Output) => Some(NodeState::Running),
        (NodeState::Running, Kind::Finished { exit_code }) => if i32::MIN <= exit_code <= i32::MAX {
            Some(NodeState::Completed { exit_code: exit_code as i32 })
        } else {
            None
        },
        (NodeState::Running, Kind::Failed) => Some(NodeState::Failed { started: true }),
        (NodeState::Running, Kind::Cancelled) => Some(NodeState::Cancelled),
        _ => None,
    }
}

/// The state that the events of one command lead to from `Scheduled`, if
/// they may be emitted in that order.
pub open spec fn run(events: Seq<Kind>) -> Option<NodeState>
    decreases events.len(),
{
    if events.len() == 0 {
        Some(NodeState::Scheduled)
    } else {
        match run(events.drop_last()) {
            Some(s) => after(s, events.last()),
            None => None,
        }
    }
}

/// The events of the trace that are about `command`, in order.
pub open spec fn project(trace: Seq<TraceEvent>, command: int) -> Seq<Kind>
    decreases trace.len(),
{
    if trace.len() == 0 {
        Seq::empty()
    } else {
        let rest = project(trace.drop_last(), command);
        match trace.last() {
            TraceEvent::Command { command: c, kind } => if c == command {
                rest.push(kind)
            } else {
                rest
            },
            TraceEvent::Done => rest,
        }
    }
}

/// How often the end of the invocation was emitted.
pub open spec fn done_count(trace: Seq<TraceEvent>) -> int
    decreases trace.len(),
{
    if trace.len() == 0 {
        0
    } else {
        done_count(trace.drop_last()) + if trace.last() is Done {
            1int
        } else {
            0int
        }
    }
}

/// How often a start was emitted.
pub open spec fn start_count(events: Seq<Kind>) -> int
    decreases events.len(),
{
    if events.len() == 0 {
        0
    } else {
        start_count(events.drop_last()) + if events.last() is Started {
            1int
        } else {
            0int
        }
    }
}

/// The events of one command agree with the state it is in.
pub open spec fn node_matches(trace: Seq<TraceEvent>, st: Seq<NodeState>, i: int) -> bool {
    if st[i] is Idle {
        project(trace, i).len() == 0
    } else {
        run(project(trace, i)) == Some(st[i].emitted())
    }
}

/// The shape of what is emitted for a command that has ended: a lone
/// `Skipped`; a lone failure of the executor, where the workspace never
/// stood; or `Started`, any number of outputs, and then how it ended:
/// finished, failed in the executor, or cancelled.
pub open spec fn is_progression(events: Seq<Kind>) -> bool {
    ||| events == seq![Kind::Skipped]
    ||| events == seq![Kind::Failed]
    ||| {
        &&& events.len() >= 2
        &&& events[0] is Started
        &&& (events.last() is Finished || events.last() is Failed || events.last() is Cancelled)
        &&& forall|j: int| 0 < j < events.len() - 1 ==> events[j] is Output
    }
}

pub proof fn lemma_project_push(trace: Seq<TraceEvent>, event: TraceEvent, command: int)
    ensures
        project(trace.push(event), command) == match event {
            TraceEvent::Command { command: c, kind } => if c == command {
                project(trace, command).push(kind)
            } else {
                project(trace, command)
            },
            TraceEvent::Done => project(trace, command),
        },
        done_count(trace.push(event)) == done_count(trace) + if event is Done {
            1int
        } else {
            0int
        },
{
    assert(trace.push(event).drop_last() =~= trace);
}

pub proof fn lemma_run_push(events: Seq<Kind>, kind: Kind)
    ensures
        run(events.push(kind)) == match run(events) {
            Some(s) => after(s, kind),
            None => None,
        },
        start_count(events.push(kind)) == start_count(events) + if kind is Started {
            1int
        } else {
            0int
        },
{
    assert(events.push(kind).drop_last() =~= events);
}

/// What the events of one command can look like, by the state they lead to.
pub proof fn lemma_run_shape(events: Seq<Kind>)
    requires
        run(events) is Some,
    ensures
        run(events)->0 is Scheduled ==> events.len() == 0,
        run(events)->0 is Running ==> events.len() >= 1 && events[0] is Started && start_count(
            events,
        ) == 1 && forall|j: int| 0 < j < events.len() ==> events[j] is Output,
        run(events)->0.terminal() ==> is_progression(events) && start_count(events) <= 1,
        run(events)->0 is Skipped ==> start_count(events) == 0,
        run(events)->0 == (NodeState::Failed { started: false }) ==> start_count(events) == 0
            && events == seq![Kind::Failed],
        run(events)->0.started() ==> start_count(events) == 1,
        !(run(events)->0 is Idle),
        !(run(events)->0 is Admitted),
    decreases events.len(),
{
    if events.len() > 0 {
        let before = events.drop_last();
        lemma_run_shape(before);
        assert(before.push(events.last()) =~= events);
        lemma_run_push(before, events.last());
        let s = run(before)->0;
        if s is Scheduled {
            assert(events =~= seq![events.last()]);
            assert(start_count(before) == 0);
        } else if s is Running {
            assert(events[0] == before[0]);
            assert forall|j: int| 0 < j < events.len() - 1 implies events[j] is Output by {
                assert(events[j] == before[j]);
            }
            if events.last() is Output {
                assert forall|j: int| 0 < j < events.len() implies events[j] is Output by {
                    if j < events.len() - 1 {
                        assert(events[j] == before[j]);
                    }
                }
            }
        }
    }
}

pub proof fn lemma_held_update(
    st: Seq<NodeState>,
    permits: Seq<u64>,
    node: int,
    to: NodeState,
    upto: int,
)
    requires
        0 <= node < st.len(),
        0 <= upto <= st.len(),
        st.len() == permits.len(),
    ensures
        held_permits(st.update(node, to), permits, upto) == held_permits(st, permits, upto)
            + if node < upto {
            (if to.holds() {
                permits[node] as int
            } else {
                0int
            }) - (if st[node].holds() {
                permits[node] as int
            } else {
                0int
            })
        } else {
            0int
        },
        unfinished(st.update(node, to), upto) == unfinished(st, upto) + if node < upto {
            steps_left(to) - steps_left(st[node])
        } else {
            0int
        },
    decreases upto,
{
    if upto > 0 {
        lemma_held_update(st, permits, node, to, upto - 1);
    }
}

pub proof fn lemma_held_bounds(st: Seq<NodeState>, permits: Seq<u64>, upto: int)
    requires
        0 <= upto <= st.len(),
        st.len() == permits.len(),
    ensures
        0 <= held_permits(st, permits, upto),
        0 <= unfinished(st, upto),
        (forall|j: int| 0 <= j < upto ==> !(#[trigger] st[j]).holds()) ==> held_permits(
            st,
            permits,
            upto,
        ) == 0,
        (forall|j: int| 0 <= j < upto ==> !(#[trigger] st[j]).holds() && !(st[j] is Scheduled))
            ==> unfinished(st, upto) == 0,
    decreases upto,
{
    if upto > 0 {
        lemma_held_bounds(st, permits, upto - 1);
    }
}

/// What must hold of the state of `i` given the states of its dependencies.
pub open spec fn node_ok(e: Seq<Seq<usize>>, st: Seq<NodeState>, i: int) -> bool {
    &&& !(st[i] is Idle) ==> deps_wanted(e, st, i)
    &&& st[i].admitted() ==> deps_passed(e, st, i)
    &&& st[i] is Skipped ==> deps_terminal(e, st, i) && some_dep_failing(e, st, i)
}

/// Every command stands in a state that its dependencies allow.
pub open spec fn states_ok(e: Seq<Seq<usize>>, st: Seq<NodeState>) -> bool {
    forall|i: int| 0 <= i < st.len() ==> #[trigger] node_ok(e, st, i)
}

/// For every command the events emitted agree with its state.
pub open spec fn trace_ok(trace: Seq<TraceEvent>, st: Seq<NodeState>) -> bool {
    forall|i: int| 0 <= i < st.len() ==> #[trigger] node_matches(trace, st, i)
}

/// `i` is a target or something a target depends on, directly or not.
pub open spec fn wanted(e: Seq<Seq<usize>>, targets: Seq<usize>, i: int) -> bool {
    exists|t: int, path: Seq<int>|
        0 <= t < targets.len() && #[trigger] is_path(e, path) && path[0] == #[trigger] targets[t]
            && path.last() == i
}

proof fn lemma_update_keeps_states(
    e: Seq<Seq<usize>>,
    st: Seq<NodeState>,
    node: int,
    to: NodeState,
)
    requires
        in_range(e),
        st.len() == e.len(),
        0 <= node < st.len(),
        states_ok(e, st),
        !st[node].terminal(),
        !(to is Idle),
        node_ok(e, st.update(node, to), node),
    ensures
        states_ok(e, st.update(node, to)),
{
    let st2 = st.update(node, to);
    assert forall|i: int| 0 <= i < st2.len() implies #[trigger] node_ok(e, st2, i) by {
        if i != node {
            assert(node_ok(e, st, i));
            assert(st2[i] == st[i]);
            if !(st[i] is Idle) {
                assert forall|k: int| 0 <= k < e[i].len() implies !(st2[(
                #[trigger] e[i][k]) as int] is Idle) by {
                    assert(!(st[e[i][k] as int] is Idle));
                }
            }
            if st[i].admitted() {
                assert forall|k: int| 0 <= k < e[i].len() implies st2[(
                #[trigger] e[i][k]) as int].passed() by {
                    assert(st[e[i][k] as int].passed());
                }
            }
            if st[i] is Skipped {
                assert forall|k: int| 0 <= k < e[i].len() implies st2[(
                #[trigger] e[i][k]) as int].terminal() by {
                    assert(st[e[i][k] as int].terminal());
                }
                let k = choose|k: int| 0 <= k < e[i].len() && st[(#[trigger] e[i][k]) as int].failing();
                assert(st2[e[i][k] as int].failing());
            }
        }
    }
}

proof fn lemma_event_keeps_trace(
    trace: Seq<TraceEvent>,
    st: Seq<NodeState>,
    node: int,
    kind: Kind,
    to: NodeState,
)
    requires
        0 <= node < st.len(),
        trace_ok(trace, st),
        !(st[node] is Idle),
        after(st[node].emitted(), kind) == Some(to),
    ensures
        trace_ok(trace.push(TraceEvent::Command { command: node, kind }), st.update(node, to)),
        done_count(trace.push(TraceEvent::Command { command: node, kind })) == done_count(trace),
{
    let event = TraceEvent::Command { command: node, kind };
    let st2 = st.update(node, to);
    assert forall|i: int| 0 <= i < st2.len() implies #[trigger] node_matches(
        trace.push(event),
        st2,
        i,
    ) by {
        lemma_project_push(trace, event, i);
        assert(node_matches(trace, st, i));
        if i == node {
            lemma_run_push(project(trace, i), kind);
        }
    }
    lemma_project_push(trace, event, node);
}

proof fn lemma_silence_keeps_trace(
    trace: Seq<TraceEvent>,
    st: Seq<NodeState>,
    node: int,
    to: NodeState,
)
    requires
        0 <= node < st.len(),
        trace_ok(trace, st),
        !(st[node] is Idle),
        !(to is Idle),
        to.emitted() == st[node].emitted(),
    ensures
        trace_ok(trace, st.update(node, to)),
{
    let st2 = st.update(node, to);
    assert forall|i: int| 0 <= i < st2.len() implies #[trigger] node_matches(trace, st2, i) by {
        assert(node_matches(trace, st, i));
    }
}

/// While commands wait, none holds permits and all of them would fit,
/// one of those that wait can be decided.
proof fn lemma_waiting_is_actionable(
    e: Seq<Seq<usize>>,
    rank: Seq<usize>,
    st: Seq<NodeState>,
    permits: Seq<u64>,
    available: u64,
    i: int,
)
    requires
        is_ranking(e, rank),
        st.len() == e.len(),
        permits.len() == e.len(),
        states_ok(e, st),
        0 <= i < st.len(),
        forall|j: int| 0 <= j < st.len() ==> !(#[trigger] st[j]).holds(),
        forall|j: int| 0 <= j < st.len() ==> permits[j] <= available,
        forall|j: int| 0 <= j < st.len() ==> !actionable(e, st, permits, available, j),
    ensures
        !(st[i] is Scheduled),
    decreases rank[i],
{
    if st[i] is Scheduled {
        assert(node_ok(e, st, i));
        assert forall|k: int| 0 <= k < e[i].len() implies st[(#[trigger] e[i][k]) as int].terminal() by {
            let d = e[i][k] as int;
            assert(rank[d] < rank[i]);
            assert(!(st[d] is Idle));
            assert(!st[d].holds());
            lemma_waiting_is_actionable(e, rank, st, permits, available, d);
        }
        assert(actionable(e, st, permits, available, i));
    }
}

/// The sum of the entries.
pub open spec fn total(ledger: Seq<int>) -> int
    decreases ledger.len(),
{
    if ledger.len() == 0 {
        0
    } else {
        total(ledger.drop_last()) + ledger.last()
    }
}

proof fn lemma_total_update(ledger: Seq<int>, at: int, value: int)
    requires
        0 <= at < ledger.len(),
    ensures
        total(ledger.update(at, value)) == total(ledger) - ledger[at] + value,
    decreases ledger.len(),
{
    let changed = ledger.update(at, value);
    if at == ledger.len() - 1 {
        assert(changed.drop_last() =~= ledger.drop_last());
    } else {
        assert(changed.drop_last() =~= ledger.drop_last().update(at, value));
        lemma_total_update(ledger.drop_last(), at, value);
    }
}

proof fn lemma_total_bounds(ledger: Seq<int>, at: int)
    requires
        forall|i: int| 0 <= i < ledger.len() ==> (#[trigger] ledger[i]) >= 0,
        0 <= at < ledger.len(),
    ensures
        0 <= ledger[at] <= total(ledger),
    decreases ledger.len(),
{
    if ledger.len() > 0 {
        lemma_total_nonnegative(ledger.drop_last());
        if at < ledger.len() - 1 {
            lemma_total_bounds(ledger.drop_last(), at);
        }
    }
}

proof fn lemma_total_nonnegative(ledger: Seq<int>)
    requires
        forall|i: int| 0 <= i < ledger.len() ==> (#[trigger] ledger[i]) >= 0,
    ensures
        0 <= total(ledger),
    decreases ledger.len(),
{
    if ledger.len() > 0 {
        lemma_total_nonnegative(ledger.drop_last());
    }
}

/// The job slots of the engine: one budget of permits that all
/// invocations take from and give back to.
pub struct Budget {
    job_slots: u64,
    available: u64,
    ledger: Ghost<Seq<int>>,
}

impl Budget {
    /// The size of the budget.
    pub closed spec fn job_slots(&self) -> u64 {
        self.job_slots
    }

    /// The permits nobody holds.
    pub closed spec fn available(&self) -> u64 {
        self.available
    }

    /// The permits each invocation holds, in the order in which the
    /// invocations were begun.
    pub closed spec fn ledger(&self) -> Seq<int> {
        self.ledger@
    }

    /// The permits that are free and those that the invocations hold make
    /// up the budget.
    pub open spec fn wf(&self) -> bool {
        &&& self.available() + total(self.ledger()) == self.job_slots()
        &&& forall|i: int| 0 <= i < self.ledger().len() ==> (#[trigger] self.ledger()[i]) >= 0
    }

    /// Nobody holds a permit.
    pub open spec fn idle(&self) -> bool {
        self.available() == self.job_slots()
    }

    /// Nothing has changed but what the invocation `id` holds and what is
    /// free.
    pub open spec fn others_as_in(&self, before: &Budget, id: int) -> bool {
        &&& self.job_slots() == before.job_slots()
        &&& self.ledger().len() == before.ledger().len()
        &&& forall|i: int|
            0 <= i < self.ledger().len() && i != id ==> (#[trigger] self.ledger()[i])
                == before.ledger()[i]
    }

    /// A budget of `job_slots` permits, all free.
    pub fn new(job_slots: u64) -> (out: Self)
        ensures
            out.wf(),
            out.idle(),
            out.job_slots() == job_slots,
            out.ledger().len() == 0,
    {
        Budget { job_slots, available: job_slots, ledger: Ghost(Seq::empty()) }
    }

    /// The size of the budget.
    pub fn slots(&self) -> (out: u64)
        ensures
            out == self.job_slots(),
    {
        self.job_slots
    }

    /// The permits nobody holds.
    pub fn available_slots(&self) -> (out: u64)
        ensures
            out == self.available(),
    {
        self.available
    }

    /// Whether nobody holds a permit.
    pub fn is_idle(&self) -> (b: bool)
        ensures
            b == self.idle(),
    {
        self.available == self.job_slots
    }

    /// Takes a new invocation into the books; it holds nothing.
    fn register(&mut self) -> (id: Ghost<int>)
        requires
            old(self).wf(),
        ensures
            final(self).wf(),
            final(self).job_slots() == old(self).job_slots(),
            final(self).available() == old(self).available(),
            final(self).ledger() == old(self).ledger().push(0),
            id@ == old(self).ledger().len(),
    {
        let ghost id = self.ledger@.len() as int;
        proof {
            assert(self.ledger@.push(0).drop_last() =~= self.ledger@);
        }
        self.ledger = Ghost(self.ledger@.push(0));
        Ghost(id)
    }

    /// Books what the invocation `id` holds now and what is free then.
    fn rebook(&mut self, id: Ghost<int>, held: Ghost<int>, available: u64)
        requires
            old(self).wf(),
            0 <= id@ < old(self).ledger().len(),
            held@ >= 0,
            available + held@ == old(self).available() + old(self).ledger()[id@],
        ensures
            final(self).wf(),
            final(self).others_as_in(old(self), id@),
            final(self).ledger() == old(self).ledger().update(id@, held@),
            final(self).available() == available,
    {
        proof {
            lemma_total_update(self.ledger@, id@, held@);
        }
        self.available = available;
        self.ledger = Ghost(self.ledger@.update(id@, held@));
    }
}

pub struct Invocation {
    edges: Vec<Vec<usize>>,
    permits: Vec<u64>,
    job_slots: u64,
    states: Vec<NodeState>,
    done: bool,
    rank: Ghost<Seq<usize>>,
    trace: Ghost<Seq<TraceEvent>>,
    id: Ghost<int>,
}

/// What the caller learns of a command when asked whether it can be decided.
#[derive(Clone, Copy, PartialEq, Eq, Structural)]
enum Decision {
    NotNow,
    Skip,
    Start,
}

impl Invocation {
    /// The dependencies of each command.
    pub closed spec fn edges(&self) -> Seq<Seq<usize>> {
        self.edges.deep_view()
    }

    /// The state of each command.
    pub closed spec fn states(&self) -> Seq<NodeState> {
        self.states@
    }

    /// The permits each command needs to run.
    pub closed spec fn permits(&self) -> Seq<u64> {
        self.permits@
    }

    /// The size of the budget that the invocation takes its permits from.
    pub closed spec fn job_slots(&self) -> u64 {
        self.job_slots
    }

    /// Whether the end of the invocation was emitted.
    pub closed spec fn done(&self) -> bool {
        self.done
    }

    /// All that was emitted so far, in order.
    pub closed spec fn trace(&self) -> Seq<TraceEvent> {
        self.trace@
    }

    /// A ranking that witnesses that the dependencies form no cycle.
    pub closed spec fn ranks(&self) -> Seq<usize> {
        self.rank@
    }

    /// The place of the invocation in the books of its budget.
    pub closed spec fn id(&self) -> int {
        self.id@
    }

    /// The permits that the commands of the invocation hold together.
    pub open spec fn held(&self) -> int {
        held_permits(self.states(), self.permits(), self.states().len() as int)
    }

    /// What holds of an invocation at all times.
    pub open spec fn wf(&self) -> bool {
        let n = self.edges().len();
        &&& self.states().len() == n
        &&& self.permits().len() == n
        &&& in_range(self.edges())
        &&& is_ranking(self.edges(), self.ranks())
        &&& forall|i: int| 0 <= i < n ==> (#[trigger] self.permits()[i]) <= self.job_slots()
        &&& states_ok(self.edges(), self.states())
        &&& trace_ok(self.trace(), self.states())
        &&& self.done() ==> forall|i: int|
            0 <= i < n ==> (#[trigger] self.states()[i]) is Idle || self.states()[i].terminal()
        &&& done_count(self.trace()) == if self.done() {
            1int
        } else {
            0int
        }
        &&& self.done() ==> self.trace().len() > 0 && self.trace().last() is Done
    }

    /// The invocation takes its permits from `budget`, whose books say
    /// what it holds.
    pub open spec fn shares(&self, budget: &Budget) -> bool {
        &&& budget.wf()
        &&& budget.job_slots() == self.job_slots()
        &&& 0 <= self.id() < budget.ledger().len()
        &&& budget.ledger()[self.id()] == self.held()
    }

    /// How many commands the invocation knows.
    pub fn len(&self) -> (n: usize)
        requires
            self.wf(),
        ensures
            n == self.states().len(),
    {
        self.states.len()
    }

    /// Where the command stands.
    pub fn state_of(&self, command: usize) -> (state: NodeState)
        requires
            self.wf(),
            command < self.states().len(),
        ensures
            state == self.states()[command as int],
    {
        self.states[command]
    }

    /// Whether the end of the invocation was emitted.
    pub fn is_done(&self) -> (b: bool)
        ensures
            b == self.done(),
    {
        self.done
    }

    /// Whether the dependencies of `i` have all ended, and whether one of
    /// them failed.
    fn dependencies_of(&self, i: usize) -> (out: (bool, bool))
        requires
            self.wf(),
            i < self.states().len(),
        ensures
            out.0 == deps_terminal(self.edges(), self.states(), i as int),
            out.0 ==> out.1 == some_dep_failing(self.edges(), self.states(), i as int),
    {
        let ghost e = self.edges.deep_view();
        let ghost st = self.states@;
        proof {
            lemma_edges_view(&self.edges);
        }
        let deps = &self.edges[i];
        let mut failing = false;
        let mut k: usize = 0;
        while k < deps.len()
            invariant
                k <= deps.len(),
                e == self.edges.deep_view(),
                st == self.states@,
                st.len() == e.len(),
                in_range(e),
                i < e.len(),
                deps@ == e[i as int],
                forall|j: int| 0 <= j < k ==> st[(#[trigger] e[i as int][j]) as int].terminal(),
                failing == exists|j: int|
                    0 <= j < k && st[(#[trigger] e[i as int][j]) as int].failing(),
            decreases deps.len() - k,
        {
            assert(e[i as int][k as int] < e.len());
            let state = self.states[deps[k]];
            if !state.is_terminal() {
                return (false, false);
            }
            if state.is_failing() {
                failing = true;
            }
            k += 1;
        }
        (true, failing)
    }

    /// Whether `i` can be decided now, and how.
    fn decide(&self, i: usize, available: u64) -> (out: Decision)
        requires
            self.wf(),
            i < self.states().len(),
        ensures
            out is NotNow <==> !actionable(
                self.edges(),
                self.states(),
                self.permits(),
                available,
                i as int,
            ),
            out is Skip ==> some_dep_failing(self.edges(), self.states(), i as int),
            out is Start ==> !some_dep_failing(self.edges(), self.states(), i as int),
    {
        match self.states[i] {
            NodeState::Scheduled => {
                let (ended, failing) = self.dependencies_of(i);
                if !ended {
                    Decision::NotNow
                } else if failing {
                    Decision::Skip
                } else if self.permits[i] <= available {
                    Decision::Start
                } else {
                    Decision::NotNow
                }
            },
            _ => Decision::NotNow,
        }
    }

    /// Moves `command` to the state `to`, and emits `kind` if there is
    /// anything to emit.
    fn transition(&mut self, command: usize, kind: Ghost<Option<Kind>>, to: NodeState)
        requires
            old(self).wf(),
            !old(self).done(),
            command < old(self).states().len(),
            !(old(self).states()[command as int] is Idle),
            !old(self).states()[command as int].terminal(),
            !(to is Idle),
            match kind@ {
                Some(k) => after(old(self).states()[command as int].emitted(), k) == Some(to),
                None => to.emitted() == old(self).states()[command as int].emitted(),
            },
            node_ok(old(self).edges(), old(self).states().update(command as int, to), command as int),
        ensures
            final(self).wf(),
            !final(self).done(),
            final(self).same_plan(old(self)),
            final(self).states() == old(self).states().update(command as int, to),
            final(self).trace() == match kind@ {
                Some(k) => old(self).trace().push(
                    TraceEvent::Command { command: command as int, kind: k },
                ),
                None => old(self).trace(),
            },
            final(self).held() == old(self).held() + (if to.holds() {
                old(self).permits()[command as int] as int
            } else {
                0int
            }) - (if old(self).states()[command as int].holds() {
                old(self).permits()[command as int] as int
            } else {
                0int
            }),
            final(self).held() >= 0,
            unfinished(final(self).states(), final(self).states().len() as int) == unfinished(
                old(self).states(),
                old(self).states().len() as int,
            ) + steps_left(to) - steps_left(old(self).states()[command as int]),
    {
        proof {
            lemma_update_keeps_states(self.edges(), self.states(), command as int, to);
            match kind@ {
                Some(k) => {
                    lemma_event_keeps_trace(self.trace(), self.states(), command as int, k, to);
                },
                None => {
                    lemma_silence_keeps_trace(self.trace(), self.states(), command as int, to);
                },
            }
            lemma_held_update(
                self.states(),
                self.permits(),
                command as int,
                to,
                self.states().len() as int,
            );
            lemma_held_bounds(
                self.states().update(command as int, to),
                self.permits(),
                self.states().len() as int,
            );
        }
        self.states.set(command, to);
        self.trace = Ghost(
            match kind@ {
                Some(k) => self.trace@.push(
                    TraceEvent::Command { command: command as int, kind: k },
                ),
                None => self.trace@,
            },
        );
    }
}

/// Every command is either not asked for or waiting.
pub open spec fn only_marks(st: Seq<NodeState>) -> bool {
    forall|i: int| 0 <= i < st.len() ==> (#[trigger] st[i]) is Idle || st[i] is Scheduled
}

/// Every command that is marked is wanted.
pub open spec fn marks_wanted(e: Seq<Seq<usize>>, targets: Seq<usize>, st: Seq<NodeState>) -> bool {
    forall|i: int| 0 <= i < st.len() && !((#[trigger] st[i]) is Idle) ==> wanted(e, targets, i)
}

proof fn lemma_target_wanted(e: Seq<Seq<usize>>, targets: Seq<usize>, t: int)
    requires
        0 <= t < targets.len(),
        targets[t] < e.len(),
    ensures
        wanted(e, targets, targets[t] as int),
{
    let path = seq![targets[t] as int];
    assert(is_path(e, path));
    assert(path[0] == targets[t] && path.last() == targets[t] as int);
}

proof fn lemma_dep_wanted(e: Seq<Seq<usize>>, targets: Seq<usize>, i: int, k: int)
    requires
        in_range(e),
        0 <= i < e.len(),
        0 <= k < e[i].len(),
        wanted(e, targets, i),
    ensures
        wanted(e, targets, e[i][k] as int),
{
    let (t, path) = choose|t: int, path: Seq<int>|
        0 <= t < targets.len() && #[trigger] is_path(e, path) && path[0] == #[trigger] targets[t]
            && path.last() == i;
    let d = e[i][k] as int;
    let longer = path.push(d);
    assert forall|j: int| 0 <= j < longer.len() - 1 implies #[trigger] crate::dag::has_edge(
        e,
        longer[j],
        longer[j + 1],
    ) by {
        if j < path.len() - 1 {
            assert(crate::dag::has_edge(e, path[j], path[j + 1]));
        } else {
            assert(longer[j] == i);
            assert(e[i][k] == d);
        }
    }
    assert(is_path(e, longer));
    assert(longer[0] == targets[t] && longer.last() == d);
}

/// Where the targets are marked and every marked command has its
/// dependencies marked, all that is wanted is marked.
proof fn lemma_wanted_marked(
    e: Seq<Seq<usize>>,
    rank: Seq<usize>,
    targets: Seq<usize>,
    st: Seq<NodeState>,
    path: Seq<int>,
    at: int,
)
    requires
        is_ranking(e, rank),
        st.len() == e.len(),
        is_path(e, path),
        0 <= at < path.len(),
        !(st[path[0]] is Idle),
        forall|i: int| 0 <= i < st.len() && !((#[trigger] st[i]) is Idle) ==> deps_wanted(e, st, i),
    ensures
        0 <= path[at] < e.len(),
        !(st[path[at]] is Idle),
    decreases at,
{
    lemma_path_descends(e, rank, path, at);
    if at > 0 {
        lemma_wanted_marked(e, rank, targets, st, path, at - 1);
        lemma_path_descends(e, rank, path, at - 1);
        let j = at - 1;
        assert(crate::dag::has_edge(e, path[j], path[j + 1]));
        let from = path[j];
        let to = path[j + 1];
        let k = choose|k: int| 0 <= k < e[from].len() && #[trigger] e[from][k] == to;
        assert(deps_wanted(e, st, from));
        assert(!(st[e[from][k] as int] is Idle));
    }
}

/// Marks every dependency of `node` as asked for.
fn mark_dependencies(edges: &Vec<Vec<usize>>, states: &mut Vec<NodeState>, node: usize)
    requires
        in_range(edges.deep_view()),
        old(states).len() == edges.len(),
        node < edges.len(),
        only_marks(old(states)@),
    ensures
        final(states).len() == old(states).len(),
        only_marks(final(states)@),
        deps_wanted(edges.deep_view(), final(states)@, node as int),
        forall|i: int|
            0 <= i < old(states).len() && !((#[trigger] old(states)[i]) is Idle) ==> !(final(states)[i] is Idle),
        forall|i: int|
            0 <= i < old(states).len() && (#[trigger] old(states)[i]) is Idle && !(final(states)[i] is Idle) ==> crate::dag::has_edge(edges.deep_view(), node as int, i),
{
    let ghost e = edges.deep_view();
    let ghost before = states@;
    proof {
        lemma_edges_view(edges);
    }
    let deps = &edges[node];
    let mut k: usize = 0;
    while k < deps.len()
        invariant
            k <= deps.len(),
            e == edges.deep_view(),
            in_range(e),
            node < e.len(),
            deps@ == e[node as int],
            states.len() == e.len(),
            before.len() == e.len(),
            only_marks(states@),
            forall|j: int| 0 <= j < k ==> !(states[(#[trigger] e[node as int][j]) as int] is Idle),
            forall|i: int|
                0 <= i < before.len() && !((#[trigger] before[i]) is Idle) ==> !(states[i] is Idle),
            forall|i: int|
                0 <= i < before.len() && (#[trigger] before[i]) is Idle && !(states[i] is Idle)
                    ==> crate::dag::has_edge(e, node as int, i),
        decreases deps.len() - k,
    {
        assert(e[node as int][k as int] < e.len());
        let d = deps[k];
        let ghost prior = states@;
        states.set(d, NodeState::Scheduled);
        proof {
            assert forall|j: int| 0 <= j < k + 1 implies !(states[(
            #[trigger] e[node as int][j]) as int] is Idle) by {
                let dj = e[node as int][j] as int;
                if j < k {
                    assert(!(prior[dj] is Idle));
                }
            }
            assert forall|i: int|
                0 <= i < before.len() && (#[trigger] before[i]) is Idle && !(states[i] is Idle)
                implies crate::dag::has_edge(e, node as int, i) by {
                if i == d as int {
                    assert(e[node as int][k as int] == i);
                } else {
                    assert(prior[i] == states[i]);
                }
            }
            assert forall|i: int| 0 <= i < states.len() implies (#[trigger] states[i]) is Idle
                || states[i] is Scheduled by {
                if i != d as int {
                    assert(prior[i] == states[i]);
                    assert(prior[i] is Idle || prior[i] is Scheduled);
                }
            }
        }
        k += 1;
    }
}

impl Invocation {
    /// Begins an invocation that asks for `targets`: they and all they
    /// depend on wait, nothing else is touched.
    pub fn new(
        edges: Vec<Vec<usize>>,
        order: &Vec<usize>,
        rank: &Vec<usize>,
        permits: Vec<u64>,
        budget: &mut Budget,
        targets: &Vec<usize>,
    ) -> (out: Self)
        requires
            old(budget).wf(),
            in_range(edges.deep_view()),
            is_layout(edges.deep_view(), order@, rank@),
            permits.len() == edges.len(),
            forall|i: int|
                0 <= i < permits.len() ==> (#[trigger] permits[i]) <= old(budget).job_slots(),
            forall|t: int| 0 <= t < targets.len() ==> (#[trigger] targets[t]) < edges.len(),
        ensures
            out.wf(),
            !out.done(),
            out.edges() == edges.deep_view(),
            out.permits() == permits@,
            out.shares(final(budget)),
            out.held() == 0,
            out.id() == old(budget).ledger().len(),
            final(budget).ledger() == old(budget).ledger().push(0),
            final(budget).available() == old(budget).available(),
            final(budget).job_slots() == old(budget).job_slots(),
            out.trace() == Seq::<TraceEvent>::empty(),
            forall|t: int|
                0 <= t < targets.len() ==> out.states()[(#[trigger] targets[t]) as int] is Scheduled,
            forall|i: int|
                0 <= i < edges.len() ==> (#[trigger] out.states()[i]) == if wanted(
                    edges.deep_view(),
                    targets@,
                    i,
                ) {
                    NodeState::Scheduled
                } else {
                    NodeState::Idle
                },
    {
        let n = edges.len();
        let ghost e = edges.deep_view();
        proof {
            lemma_edges_view(&edges);
        }
        let mut states: Vec<NodeState> = Vec::new();
        let mut f: usize = 0;
        while f < n
            invariant
                f <= n,
                states.len() == f,
                forall|j: int| 0 <= j < f ==> states[j] is Idle,
            decreases n - f,
        {
            states.push(NodeState::Idle);
            f += 1;
        }
        let mut t: usize = 0;
        while t < targets.len()
            invariant
                t <= targets.len(),
                n == e.len(),
                states.len() == n,
                only_marks(states@),
                marks_wanted(e, targets@, states@),
                forall|u: int| 0 <= u < targets.len() ==> (#[trigger] targets[u]) < n,
                forall|u: int| 0 <= u < t ==> !(states[(#[trigger] targets[u]) as int] is Idle),
            decreases targets.len() - t,
        {
            let ghost prior = states@;
            let target = targets[t];
            states.set(target, NodeState::Scheduled);
            proof {
                lemma_target_wanted(e, targets@, t as int);
                assert forall|i: int| 0 <= i < states.len() implies (#[trigger] states[i]) is Idle
                    || states[i] is Scheduled by {
                    if i != target as int {
                        assert(prior[i] == states[i]);
                    }
                }
                assert forall|i: int|
                    0 <= i < states.len() && !((#[trigger] states[i]) is Idle) implies wanted(
                    e,
                    targets@,
                    i,
                ) by {
                    if i != target as int {
                        assert(prior[i] == states[i]);
                    }
                }
                assert forall|u: int| 0 <= u < t + 1 implies !(states[(
                #[trigger] targets[u]) as int] is Idle) by {
                    let x = targets[u] as int;
                    if u < t && x != target as int {
                        assert(!(prior[x] is Idle));
                    }
                }
            }
            t += 1;
        }
        let mut p: usize = n;
        while p > 0
            invariant
                p <= n,
                n == e.len(),
                e == edges.deep_view(),
                in_range(e),
                is_layout(e, order@, rank@),
                states.len() == n,
                only_marks(states@),
                marks_wanted(e, targets@, states@),
                forall|u: int| 0 <= u < targets.len() ==> (#[trigger] targets[u]) < n,
                forall|u: int|
                    0 <= u < targets.len() ==> !(states[(#[trigger] targets[u]) as int] is Idle),
                forall|q: int|
                    p <= q < n && !(states[(#[trigger] order[q]) as int] is Idle) ==> deps_wanted(
                        e,
                        states@,
                        order[q] as int,
                    ),
            decreases p,
        {
            p -= 1;
            let node = order[p];
            let ghost prior = states@;
            if let NodeState::Scheduled = states[node] {
                mark_dependencies(&edges, &mut states, node);
                proof {
                    assert forall|i: int|
                        0 <= i < states.len() && !((#[trigger] states[i]) is Idle) implies wanted(
                        e,
                        targets@,
                        i,
                    ) by {
                        if prior[i] is Idle {
                            assert(crate::dag::has_edge(e, node as int, i));
                            let k = choose|k: int|
                                0 <= k < e[node as int].len() && #[trigger] e[node as int][k] == i;
                            assert(!(prior[node as int] is Idle));
                            lemma_dep_wanted(e, targets@, node as int, k);
                        } else {
                            assert(!(prior[i] is Idle));
                        }
                    }
                    assert forall|u: int| 0 <= u < targets.len() implies !(states[(
                    #[trigger] targets[u]) as int] is Idle) by {
                        let x = targets[u] as int;
                        assert(!(prior[x] is Idle));
                    }
                }
            }
            proof {
                assert forall|q: int|
                    p <= q < n && !(states[(#[trigger] order[q]) as int] is Idle) implies deps_wanted(
                    e,
                    states@,
                    order[q] as int,
                ) by {
                    let x = order[q] as int;
                    if q > p {
                        assert(rank[x] == q);
                        // x was handled earlier; its dependencies rank below it
                        if prior[x] is Idle {
                            // newly marked in this round: it is a dependency of node,
                            // hence ranks below node, which contradicts q > p
                            assert(crate::dag::has_edge(e, node as int, x));
                            let k = choose|k: int|
                                0 <= k < e[node as int].len() && #[trigger] e[node as int][k] == x;
                            assert(rank[e[node as int][k] as int] < rank[node as int]);
                            assert(rank[node as int] == p);
                        } else {
                            assert(deps_wanted(e, prior, x));
                            assert forall|k: int| 0 <= k < e[x].len() implies !(states[(
                            #[trigger] e[x][k]) as int] is Idle) by {
                                assert(!(prior[e[x][k] as int] is Idle));
                            }
                        }
                    }
                }
            }
        }
        let job_slots = budget.slots();
        let id = budget.register();
        let out = Invocation {
            edges,
            permits,
            job_slots,
            states,
            done: false,
            rank: Ghost(rank@),
            trace: Ghost(Seq::empty()),
            id,
        };
        proof {
            let st = out.states();
            assert(out.edges() == e);
            assert forall|i: int| 0 <= i < st.len() && !((#[trigger] st[i]) is Idle) implies deps_wanted(
                e,
                st,
                i,
            ) by {
                assert(order[rank[i] as int] == i);
            }
            assert forall|i: int| 0 <= i < st.len() implies #[trigger] node_ok(e, st, i) by {
                assert(st[i] is Idle || st[i] is Scheduled);
            }
            assert forall|i: int| 0 <= i < st.len() implies #[trigger] node_matches(
                out.trace(),
                st,
                i,
            ) by {
                assert(st[i] is Idle || st[i] is Scheduled);
            }
            assert forall|j: int| 0 <= j < st.len() implies !(#[trigger] st[j]).holds() by {
                assert(st[j] is Idle || st[j] is Scheduled);
            }
            lemma_held_bounds(st, out.permits(), n as int);
            assert forall|t: int| 0 <= t < targets.len() implies st[(
            #[trigger] targets[t]) as int] is Scheduled by {
                let x = targets[t] as int;
                assert(!(st[x] is Idle));
                assert(st[x] is Idle || st[x] is Scheduled);
            }
            assert forall|i: int| 0 <= i < n implies (#[trigger] st[i]) == if wanted(
                e,
                targets@,
                i,
            ) {
                NodeState::Scheduled
            } else {
                NodeState::Idle
            } by {
                assert(st[i] is Idle || st[i] is Scheduled);
                if wanted(e, targets@, i) {
                    let (t, path) = choose|t: int, path: Seq<int>|
                        0 <= t < targets@.len() && #[trigger] is_path(e, path) && path[0]
                            == #[trigger] targets@[t] && path.last() == i;
                    assert(!(st[targets[t] as int] is Idle));
                    lemma_wanted_marked(e, rank@, targets@, st, path, path.len() - 1);
                }
            }
        }
        out
    }
}

impl Invocation {
    /// Nothing but the states and the trace may differ.
    pub open spec fn same_plan(&self, other: &Invocation) -> bool {
        &&& self.edges() == other.edges()
        &&& self.permits() == other.permits()
        &&& self.job_slots() == other.job_slots()
        &&& self.ranks() == other.ranks()
        &&& self.id() == other.id()
    }

    /// `command` is the first command that can be decided with `available`
    /// permits free.
    pub open spec fn first_actionable(&self, available: u64, command: int) -> bool {
        &&& 0 <= command < self.states().len()
        &&& actionable(self.edges(), self.states(), self.permits(), available, command)
        &&& forall|j: int|
            0 <= j < command ==> !actionable(
                self.edges(),
                self.states(),
                self.permits(),
                available,
                j,
            )
    }

    /// No command can be decided with `available` permits free.
    pub open spec fn none_actionable(&self, available: u64) -> bool {
        forall|j: int|
            0 <= j < self.states().len() ==> !actionable(
                self.edges(),
                self.states(),
                self.permits(),
                available,
                j,
            )
    }

    /// Some command of the invocation holds permits.
    pub open spec fn some_holding(&self) -> bool {
        exists|j: int| 0 <= j < self.states().len() && (#[trigger] self.states()[j]).holds()
    }

    /// Some command of the invocation waits to be decided.
    pub open spec fn some_scheduled(&self) -> bool {
        exists|j: int| 0 <= j < self.states().len() && (#[trigger] self.states()[j]) is Scheduled
    }

    /// Whether any command holds permits.
    fn any_holding(&self) -> (b: bool)
        requires
            self.wf(),
        ensures
            b == self.some_holding(),
    {
        let mut i: usize = 0;
        while i < self.states.len()
            invariant
                i <= self.states.len(),
                forall|j: int| 0 <= j < i ==> !(#[trigger] self.states@[j]).holds(),
            decreases self.states.len() - i,
        {
            if self.states[i].holds_permits() {
                assert(self.states()[i as int].holds());
                return true;
            }
            i += 1;
        }
        false
    }

    /// Whether any command waits to be decided.
    fn any_scheduled(&self) -> (b: bool)
        requires
            self.wf(),
        ensures
            b == self.some_scheduled(),
    {
        let mut i: usize = 0;
        while i < self.states.len()
            invariant
                i <= self.states.len(),
                forall|j: int| 0 <= j < i ==> !((#[trigger] self.states@[j]) is Scheduled),
            decreases self.states.len() - i,
        {
            if let NodeState::Scheduled = self.states[i] {
                return true;
            }
            i += 1;
        }
        false
    }

    /// Decides the first command that can be decided: it is skipped if a
    /// dependency failed, else it is admitted: its permits are taken out of
    /// the budget, and the caller prepares its workspace.  Nothing is
    /// emitted for an admitted command before its start is reported.  Where
    /// no command can be decided, the caller waits while a command holds
    /// permits, of this invocation or of another; else the invocation is
    /// over.
    pub fn next_step(&mut self, budget: &mut Budget) -> (step: Step)
        requires
            old(self).wf(),
            old(self).shares(old(budget)),
            !old(self).done(),
        ensures
            final(self).wf(),
            final(self).shares(final(budget)),
            final(self).same_plan(old(self)),
            final(budget).others_as_in(old(budget), old(self).id()),
            match step {
                Step::Start { command } => {
                    &&& old(self).first_actionable(old(budget).available(), command as int)
                    &&& !some_dep_failing(old(self).edges(), old(self).states(), command as int)
                    &&& final(self).states() == old(self).states().update(
                        command as int,
                        NodeState::Admitted,
                    )
                    &&& final(budget).available() == old(budget).available() - old(self).permits()[command as int]
                    &&& final(self).trace() == old(self).trace()
                    &&& !final(self).done()
                },
                Step::Skip { command } => {
                    &&& old(self).first_actionable(old(budget).available(), command as int)
                    &&& some_dep_failing(old(self).edges(), old(self).states(), command as int)
                    &&& final(self).states() == old(self).states().update(
                        command as int,
                        NodeState::Skipped,
                    )
                    &&& final(budget).available() == old(budget).available()
                    &&& final(self).trace() == old(self).trace().push(
                        TraceEvent::Command { command: command as int, kind: Kind::Skipped },
                    )
                    &&& !final(self).done()
                },
                Step::Wait => {
                    &&& old(self).none_actionable(old(budget).available())
                    &&& (old(self).some_holding() || (old(self).some_scheduled() && !old(budget).idle()))
                    &&& final(self).states() == old(self).states()
                    &&& final(budget).available() == old(budget).available()
                    &&& final(self).trace() == old(self).trace()
                    &&& !final(self).done()
                },
                Step::Finish => {
                    &&& !old(self).some_holding()
                    &&& !old(self).some_scheduled()
                    &&& final(self).states() == old(self).states()
                    &&& final(budget).available() == old(budget).available()
                    &&& final(self).trace() == old(self).trace().push(TraceEvent::Done)
                    &&& final(self).done()
                },
            },
    {
        let n = self.states.len();
        let ghost e = self.edges();
        let ghost st = self.states();
        let available = budget.available;
        let mut i: usize = 0;
        while i < n
            invariant
                i <= n,
                n == self.states().len(),
                self.wf(),
                self.shares(budget),
                !self.done(),
                *self == *old(self),
                *budget == *old(budget),
                available == budget.available(),
                e == self.edges(),
                st == self.states(),
                forall|j: int|
                    0 <= j < i ==> !actionable(
                        self.edges(),
                        self.states(),
                        self.permits(),
                        available,
                        j,
                    ),
            decreases n - i,
        {
            match self.decide(i, available) {
                Decision::Skip => {
                    proof {
                        assert(st[i as int] is Scheduled);
                        assert(node_ok(e, st, i as int));
                        lemma_self_free(e, self.ranks(), i as int);
                        lemma_same_deps(e, st, i as int, NodeState::Skipped);
                    }
                    self.transition(i, Ghost(Some(Kind::Skipped)), NodeState::Skipped);
                    return Step::Skip { command: i };
                },
                Decision::Start => {
                    proof {
                        assert(st[i as int] is Scheduled);
                        assert(node_ok(e, st, i as int));
                        lemma_self_free(e, self.ranks(), i as int);
                        lemma_same_deps(e, st, i as int, NodeState::Admitted);
                        lemma_all_passed(e, st, i as int);
                    }
                    let left = available - self.permits[i];
                    self.transition(i, Ghost(None), NodeState::Admitted);
                    budget.rebook(self.id, Ghost(self.held()), left);
                    return Step::Start { command: i };
                },
                Decision::NotNow => {},
            }
            i += 1;
        }
        if self.any_holding() {
            Step::Wait
        } else if self.any_scheduled() {
            proof {
                if budget.idle() {
                    let j = choose|j: int| 0 <= j < st.len() && (#[trigger] st[j]) is Scheduled;
                    assert forall|x: int| 0 <= x < st.len() implies !(#[trigger] st[x]).holds() by {}
                    lemma_waiting_is_actionable(
                        e,
                        self.ranks(),
                        st,
                        self.permits(),
                        available,
                        j,
                    );
                }
            }
            Step::Wait
        } else {
            proof {
                assert forall|j: int| 0 <= j < n implies (#[trigger] st[j]) is Idle
                    || st[j].terminal() by {
                    assert(!st[j].holds());
                    assert(!(st[j] is Scheduled));
                }
                lemma_project_push(self.trace(), TraceEvent::Done, 0);
                assert forall|j: int| 0 <= j < n implies #[trigger] node_matches(
                    self.trace().push(TraceEvent::Done),
                    st,
                    j,
                ) by {
                    lemma_project_push(self.trace(), TraceEvent::Done, j);
                    assert(node_matches(self.trace(), st, j));
                }
            }
            self.done = true;
            self.trace = Ghost(self.trace@.push(TraceEvent::Done));
            Step::Finish
        }
    }

    /// Takes note that the workspace of `command` stands and that it
    /// starts: its start is emitted.
    pub fn command_started(&mut self, command: usize)
        requires
            old(self).wf(),
            command < old(self).states().len(),
            old(self).states()[command as int] is Admitted,
        ensures
            final(self).wf(),
            final(self).same_plan(old(self)),
            final(self).held() == old(self).held(),
            final(self).done() == old(self).done(),
            final(self).states() == old(self).states().update(command as int, NodeState::Running),
            final(self).trace() == old(self).trace().push(
                TraceEvent::Command { command: command as int, kind: Kind::Started },
            ),
    {
        proof {
            assert(node_ok(self.edges(), self.states(), command as int));
            lemma_self_free(self.edges(), self.ranks(), command as int);
            lemma_same_deps(self.edges(), self.states(), command as int, NodeState::Running);
        }
        self.transition(command, Ghost(Some(Kind::Started)), NodeState::Running);
    }

    /// Takes note that the executor came back from `command`: its permits
    /// go back to the budget and how it ended is emitted.  A command whose
    /// workspace never stood can only have failed, and ends without a
    /// start.
    pub fn command_finished(&mut self, budget: &mut Budget, command: usize, outcome: Outcome)
        requires
            old(self).wf(),
            old(self).shares(old(budget)),
            command < old(self).states().len(),
            outcome.fits(old(self).states()[command as int]),
        ensures
            final(self).wf(),
            final(self).shares(final(budget)),
            final(self).same_plan(old(self)),
            final(budget).others_as_in(old(budget), old(self).id()),
            final(self).done() == old(self).done(),
            final(self).states() == old(self).states().update(
                command as int,
                outcome.state(old(self).states()[command as int]),
            ),
            final(budget).available() == old(budget).available() + old(self).permits()[command as int],
            final(self).trace() == old(self).trace().push(
                TraceEvent::Command { command: command as int, kind: outcome.kind() },
            ),
    {
        let ghost e = self.edges();
        let ghost st = self.states();
        let from = self.states[command];
        let to = match outcome {
            Outcome::Exited { exit_code } => NodeState::Completed { exit_code },
            Outcome::ExecutorFailed => NodeState::Failed {
                started: match from {
                    NodeState::Running => true,
                    _ => false,
                },
            },
            Outcome::Cancelled => NodeState::Cancelled,
        };
        proof {
            assert(node_ok(e, st, command as int));
            lemma_self_free(e, self.ranks(), command as int);
            lemma_same_deps(e, st, command as int, to);
            lemma_total_bounds(budget.ledger(), self.id());
            lemma_held_update(st, self.permits(), command as int, to, st.len() as int);
            lemma_held_bounds(st.update(command as int, to), self.permits(), st.len() as int);
        }
        let freed = budget.available + self.permits[command];
        self.transition(command, Ghost(Some(outcome.kind())), to);
        budget.rebook(self.id, Ghost(self.held()), freed);
    }

    /// Takes note of a line of output or a profile sample of `command`.
    /// It is emitted if the command is running and dropped otherwise.
    pub fn record_output(&mut self, command: usize) -> (emitted: bool)
        requires
            old(self).wf(),
            command < old(self).states().len(),
        ensures
            final(self).wf(),
            final(self).same_plan(old(self)),
            final(self).held() == old(self).held(),
            final(self).done() == old(self).done(),
            final(self).states() == old(self).states(),
            emitted == (old(self).states()[command as int] is Running),
            final(self).trace() == if emitted {
                old(self).trace().push(
                    TraceEvent::Command { command: command as int, kind: Kind::Output },
                )
            } else {
                old(self).trace()
            },
    {
        if let NodeState::Running = self.states[command] {
            proof {
                assert(self.states().update(command as int, NodeState::Running) =~= self.states());
                assert(node_ok(self.edges(), self.states(), command as int));
            }
            self.transition(command, Ghost(Some(Kind::Output)), NodeState::Running);
            true
        } else {
            false
        }
    }
}

/// No command depends on itself.
proof fn lemma_self_free(e: Seq<Seq<usize>>, rank: Seq<usize>, i: int)
    requires
        is_ranking(e, rank),
        0 <= i < e.len(),
    ensures
        forall|k: int| 0 <= k < e[i].len() ==> (#[trigger] e[i][k]) != i,
{
    assert forall|k: int| 0 <= k < e[i].len() implies (#[trigger] e[i][k]) != i by {
        assert(rank[e[i][k] as int] < rank[i]);
    }
}

/// A change of the state of `i` leaves what holds of its dependencies.
proof fn lemma_same_deps(e: Seq<Seq<usize>>, st: Seq<NodeState>, i: int, to: NodeState)
    requires
        in_range(e),
        st.len() == e.len(),
        0 <= i < e.len(),
        forall|k: int| 0 <= k < e[i].len() ==> (#[trigger] e[i][k]) != i,
    ensures
        deps_wanted(e, st.update(i, to), i) == deps_wanted(e, st, i),
        deps_terminal(e, st.update(i, to), i) == deps_terminal(e, st, i),
        deps_passed(e, st.update(i, to), i) == deps_passed(e, st, i),
        some_dep_failing(e, st.update(i, to), i) == some_dep_failing(e, st, i),
{
    let st2 = st.update(i, to);
    assert forall|k: int| 0 <= k < e[i].len() implies st2[(#[trigger] e[i][k]) as int] == st[e[i][k] as int] by {}
    if deps_wanted(e, st, i) {
        assert forall|k: int| 0 <= k < e[i].len() implies !(st2[(#[trigger] e[i][k]) as int] is Idle) by {
            assert(!(st[e[i][k] as int] is Idle));
        }
    }
    if deps_wanted(e, st2, i) {
        assert forall|k: int| 0 <= k < e[i].len() implies !(st[(#[trigger] e[i][k]) as int] is Idle) by {
            assert(!(st2[e[i][k] as int] is Idle));
        }
    }
    if deps_terminal(e, st, i) {
        assert forall|k: int| 0 <= k < e[i].len() implies st2[(#[trigger] e[i][k]) as int].terminal() by {
            assert(st[e[i][k] as int].terminal());
        }
    }
    if deps_terminal(e, st2, i) {
        assert forall|k: int| 0 <= k < e[i].len() implies st[(#[trigger] e[i][k]) as int].terminal() by {
            assert(st2[e[i][k] as int].terminal());
        }
    }
    if deps_passed(e, st, i) {
        assert forall|k: int| 0 <= k < e[i].len() implies st2[(#[trigger] e[i][k]) as int].passed() by {
            assert(st[e[i][k] as int].passed());
        }
    }
    if deps_passed(e, st2, i) {
        assert forall|k: int| 0 <= k < e[i].len() implies st[(#[trigger] e[i][k]) as int].passed() by {
            assert(st2[e[i][k] as int].passed());
        }
    }
    if some_dep_failing(e, st, i) {
        let k = choose|k: int| 0 <= k < e[i].len() && st[(#[trigger] e[i][k]) as int].failing();
        assert(st2[e[i][k] as int].failing());
    }
    if some_dep_failing(e, st2, i) {
        let k = choose|k: int| 0 <= k < e[i].len() && st2[(#[trigger] e[i][k]) as int].failing();
        assert(st[e[i][k] as int].failing());
    }
}

/// Dependencies that have all ended and of which none failed have all passed.
proof fn lemma_all_passed(e: Seq<Seq<usize>>, st: Seq<NodeState>, i: int)
    requires
        deps_terminal(e, st, i),
        !some_dep_failing(e, st, i),
    ensures
        deps_passed(e, st, i),
{
    assert forall|k: int| 0 <= k < e[i].len() implies st[(#[trigger] e[i][k]) as int].passed() by {
        assert(st[e[i][k] as int].terminal());
        assert(!st[e[i][k] as int].failing());
    }
}

/// State progression.  What is emitted for a command that has ended is
/// a lone `Skipped`; a lone failure of the executor, where its workspace
/// never stood; or `Started`, any number of outputs, and then `Finished`,
/// `Cancelled` or the executor's failure.  A skip never follows a start.
pub proof fn law_state_progression(inv: &Invocation, command: int)
    requires
        inv.wf(),
        0 <= command < inv.states().len(),
        inv.states()[command].terminal(),
    ensures
        is_progression(project(inv.trace(), command)),
{
    assert(node_matches(inv.trace(), inv.states(), command));
    lemma_run_shape(project(inv.trace(), command));
}

/// While a command runs, what was emitted for it is `Started` and then
/// outputs only; before its start, whether it waits or its workspace is
/// being prepared, nothing was emitted for it.
pub proof fn law_events_follow_state(inv: &Invocation, command: int)
    requires
        inv.wf(),
        0 <= command < inv.states().len(),
    ensures
        inv.states()[command] is Idle || inv.states()[command] is Scheduled
            || inv.states()[command] is Admitted ==> project(inv.trace(), command).len() == 0,
        inv.states()[command] is Running ==> ({
            let events = project(inv.trace(), command);
            events.len() >= 1 && events[0] is Started && forall|j: int|
                0 < j < events.len() ==> events[j] is Output
        }),
{
    assert(node_matches(inv.trace(), inv.states(), command));
    if !(inv.states()[command] is Idle) {
        lemma_run_shape(project(inv.trace(), command));
    }
}

/// Deduplication.  Within one invocation a command is started at most
/// once, however many commands depend on it: exactly once if its start was
/// emitted, never otherwise.
pub proof fn law_started_at_most_once(inv: &Invocation, command: int)
    requires
        inv.wf(),
        0 <= command < inv.states().len(),
    ensures
        start_count(project(inv.trace(), command)) == if inv.states()[command].started() {
            1int
        } else {
            0int
        },
{
    assert(node_matches(inv.trace(), inv.states(), command));
    if !(inv.states()[command] is Idle) {
        lemma_run_shape(project(inv.trace(), command));
    }
}

/// Start after preparation.  A command on which the executor failed
/// before its workspace stood has no start among its events: all that is
/// emitted for it is the failure.
pub proof fn law_no_start_without_workspace(inv: &Invocation, command: int)
    requires
        inv.wf(),
        0 <= command < inv.states().len(),
        inv.states()[command] == (NodeState::Failed { started: false }),
    ensures
        start_count(project(inv.trace(), command)) == 0,
        project(inv.trace(), command) == seq![Kind::Failed],
{
    assert(node_matches(inv.trace(), inv.states(), command));
    lemma_run_shape(project(inv.trace(), command));
}

/// No command on the path before its last one has passed, if the last one
/// has not.
proof fn lemma_failure_spreads(inv: &Invocation, path: Seq<int>, at: int)
    requires
        inv.wf(),
        is_path(inv.edges(), path),
        0 <= at < path.len(),
        !inv.states()[path.last()].passed(),
    ensures
        0 <= path[at] < inv.states().len(),
        !inv.states()[path[at]].passed(),
        at < path.len() - 1 ==> !inv.states()[path[at]].admitted(),
    decreases path.len() - at,
{
    lemma_path_descends(inv.edges(), inv.ranks(), path, at);
    if at < path.len() - 1 {
        lemma_failure_spreads(inv, path, at + 1);
        let e = inv.edges();
        let st = inv.states();
        let from = path[at];
        let to = path[at + 1];
        assert(crate::dag::has_edge(e, path[at], path[at + 1]));
        let k = choose|k: int| 0 <= k < e[from].len() && #[trigger] e[from][k] == to;
        assert(node_ok(e, st, from));
        if st[from].admitted() {
            assert(st[e[from][k] as int].passed());
        }
    }
}

/// Skip propagation.  Where a command has ended without passing (it exited
/// with a code other than 0, the executor failed, it was cancelled, or it
/// was skipped), no command that depends on it, directly or through
/// others, is ever handed to the executor or started, and each of them
/// that has ended was skipped.
pub proof fn law_skip_propagation(inv: &Invocation, path: Seq<int>, at: int)
    requires
        inv.wf(),
        is_path(inv.edges(), path),
        0 <= at < path.len() - 1,
        inv.states()[path.last()].failing(),
    ensures
        0 <= path[at] < inv.states().len(),
        !inv.states()[path[at]].admitted(),
        !inv.states()[path[at]].started(),
        start_count(project(inv.trace(), path[at])) == 0,
        inv.states()[path[at]].terminal() ==> inv.states()[path[at]] is Skipped,
{
    lemma_failure_spreads(inv, path, at);
    law_started_at_most_once(inv, path[at]);
}

/// The permits that the first `upto` invocations hold together.
pub open spec fn held_by(invocations: Seq<Invocation>, upto: int) -> int
    decreases upto,
{
    if upto <= 0 {
        0
    } else {
        held_by(invocations, upto - 1) + invocations[upto - 1].held()
    }
}

/// The invocations are all those that were begun on the budget, in the
/// order in which they were begun.
pub open spec fn all_share(budget: &Budget, invocations: Seq<Invocation>) -> bool {
    &&& invocations.len() == budget.ledger().len()
    &&& forall|k: int|
        0 <= k < invocations.len() ==> (#[trigger] invocations[k]).wf() && invocations[k].shares(
            budget,
        ) && invocations[k].id() == k
}

proof fn lemma_held_is_booked(budget: &Budget, invocations: Seq<Invocation>, upto: int)
    requires
        0 <= upto <= invocations.len(),
        invocations.len() <= budget.ledger().len(),
        forall|k: int|
            0 <= k < invocations.len() ==> budget.ledger()[k] == (#[trigger] invocations[k]).held(),
    ensures
        held_by(invocations, upto) == total(budget.ledger().take(upto)),
    decreases upto,
{
    if upto > 0 {
        lemma_held_is_booked(budget, invocations, upto - 1);
        assert(budget.ledger().take(upto).drop_last() =~= budget.ledger().take(upto - 1));
        assert(budget.ledger()[upto - 1] == invocations[upto - 1].held());
    } else {
        assert(budget.ledger().take(0) =~= Seq::<int>::empty());
    }
}

/// Admission.  At any time the permits that the commands of all
/// invocations hold together, whether they run or their workspaces are
/// being prepared, are within the one budget of the engine, and together
/// with the free ones they make it up.
pub proof fn law_admission(budget: &Budget, invocations: Seq<Invocation>)
    requires
        budget.wf(),
        all_share(budget, invocations),
    ensures
        held_by(invocations, invocations.len() as int) + budget.available() == budget.job_slots(),
        held_by(invocations, invocations.len() as int) <= budget.job_slots(),
{
    assert forall|k: int| 0 <= k < invocations.len() implies budget.ledger()[k] == (
    #[trigger] invocations[k]).held() by {
        assert(invocations[k].shares(budget));
    }
    lemma_held_is_booked(budget, invocations, invocations.len() as int);
    assert(budget.ledger().take(invocations.len() as int) =~= budget.ledger());
}

proof fn lemma_two_entries(ledger: Seq<int>, i: int, j: int)
    requires
        forall|k: int| 0 <= k < ledger.len() ==> (#[trigger] ledger[k]) >= 0,
        0 <= i < j < ledger.len(),
    ensures
        ledger[i] + ledger[j] <= total(ledger),
    decreases ledger.len(),
{
    if j == ledger.len() - 1 {
        lemma_total_bounds(ledger.drop_last(), i);
    } else {
        lemma_two_entries(ledger.drop_last(), i, j);
    }
}

/// Admission, for two invocations: whatever two invocations of an engine
/// hold at the same time is within its one budget together.
pub proof fn law_admission_of_two(budget: &Budget, one: &Invocation, other: &Invocation)
    requires
        one.wf(),
        other.wf(),
        one.shares(budget),
        other.shares(budget),
        one.id() != other.id(),
    ensures
        one.held() + other.held() + budget.available() <= budget.job_slots(),
        one.held() + other.held() <= budget.job_slots(),
{
    if one.id() < other.id() {
        lemma_two_entries(budget.ledger(), one.id(), other.id());
    } else {
        lemma_two_entries(budget.ledger(), other.id(), one.id());
    }
}

/// The free permits are never more than the budget has.
pub proof fn law_free_within_budget(budget: &Budget)
    requires
        budget.wf(),
    ensures
        budget.available() <= budget.job_slots(),
{
    lemma_total_nonnegative(budget.ledger());
}

/// Admission, for one invocation: what it holds is within the budget.
pub proof fn law_admission_of_one(budget: &Budget, inv: &Invocation)
    requires
        inv.wf(),
        inv.shares(budget),
    ensures
        0 <= inv.held() <= budget.job_slots() - budget.available(),
        inv.held() <= budget.job_slots(),
{
    lemma_total_bounds(budget.ledger(), inv.id());
}

/// Termination.  The end of the invocation is emitted at most once; once
/// it has been, it is the last thing emitted and every command that was
/// asked for has ended.
pub proof fn law_single_done(inv: &Invocation)
    requires
        inv.wf(),
    ensures
        done_count(inv.trace()) == if inv.done() {
            1int
        } else {
            0int
        },
        inv.done() ==> inv.trace().len() > 0 && inv.trace().last() is Done,
        inv.done() ==> forall|i: int|
            0 <= i < inv.states().len() ==> (#[trigger] inv.states()[i]) is Idle
                || inv.states()[i].terminal(),
{
}

/// A command is only ever handed to the executor when everything it
/// depends on has passed.
pub proof fn law_started_after_dependencies(inv: &Invocation, command: int, k: int)
    requires
        inv.wf(),
        0 <= command < inv.states().len(),
        0 <= k < inv.edges()[command].len(),
        inv.states()[command].admitted(),
    ensures
        inv.states()[inv.edges()[command][k] as int].passed(),
{
    assert(node_ok(inv.edges(), inv.states(), command));
}

} // verus!
