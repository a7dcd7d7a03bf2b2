//! The service around the command set: it takes what clients ask, answers
//! them, and runs what they asked for.

use crate::client_commands::{ClientResp, ClientResponses, ConfigureSmelt};
use crate::commands::{Command, CommandView};
use crate::error::{SmeltErr, SmeltErrView};
use crate::events::{Event, EventSummary, SmeltErrorType};
use crate::executed_tests::{ExecutedTestResult, ExecutedTestResultView};
use crate::commands::TargetType;
use crate::graph::{all_clean, missing, name_index, typed_upto, CommandGraph, Run};
use crate::text::lowercased;
use crate::runtime_support::{GetTraceId, InvocationData, SetTraceId};
use crate::events::{Et, InvokeEvent, InvokeVariant};
use crate::scheduler::{
    lemma_held_bounds, lemma_held_update, unfinished, Budget, Invocation, Kind, NodeState,
    Outcome, Step, TraceEvent,
};
use crate::utils::{invoke_start_message, GitInfo};
use vstd::prelude::*;
use vstd::string::*;

verus! {

/// What an executor hands back for one command.
#[derive(Debug, PartialEq, Eq)]
pub struct ExecutorReport {
    /// The lines that the command wrote, in order.
    pub lines: Vec<String>,
    /// The result of the command, or why it could not be run.
    pub result: Result<ExecutedTestResult, String>,
}

/// Runs commands.  A command is prepared first and run only if that
/// went well.
pub trait Executor {
    /// Prepares the workspace of the command; the error says why it could
    /// not be prepared.
    fn prepare(&mut self, command: &Command, trace_id: &str, cfg: &ConfigureSmelt) -> Result<
        (),
        String,
    >;

    /// Runs the prepared command to its end.
    fn execute_commands(
        &mut self,
        command: &Command,
        trace_id: &str,
        cfg: &ConfigureSmelt,
    ) -> ExecutorReport;
}

/// The error for a result that says nothing of how the command exited.
pub open spec fn no_outputs() -> Seq<char> {
    "the executor returned no outputs"@
}

/// How the scheduler is to take what the executor handed back: a result
/// with outputs is an exit with their code, anything else a failure of the
/// executor.
pub open spec fn outcome_of(result: Result<ExecutedTestResult, String>) -> Outcome {
    match result {
        Ok(r) => match r.outputs() {
            Some(outputs) => Outcome::Exited { exit_code: outputs.exit_code as i32 },
            None => Outcome::ExecutorFailed,
        },
        Err(_) => Outcome::ExecutorFailed,
    }
}

/// The result of the command as the engine keeps it.
pub open spec fn kept_result(result: Result<ExecutedTestResult, String>) -> Result<
    ExecutedTestResultView,
    SmeltErrView,
> {
    match result {
        Ok(r) => match r.outputs() {
            Some(_) => Ok(r@),
            None => Err(SmeltErrView::ExecutorFailed(no_outputs())),
        },
        Err(cause) => Err(SmeltErrView::ExecutorFailed(cause@)),
    }
}

/// The view of a result as the engine keeps it.
pub open spec fn result_view(result: Result<ExecutedTestResult, SmeltErr>) -> Result<
    ExecutedTestResultView,
    SmeltErrView,
> {
    match result {
        Ok(r) => Ok(r@),
        Err(e) => Err(e@),
    }
}

/// What each event says, in order.
pub open spec fn summaries(events: Seq<Event>) -> Seq<EventSummary> {
    Seq::new(events.len(), |i: int| events[i].summary())
}

/// One output event for each line.
pub open spec fn line_summaries(command: Seq<char>, lines: Seq<Seq<char>>) -> Seq<EventSummary> {
    Seq::new(lines.len(), |i: int| EventSummary::Stdout { command, output: lines[i] })
}

/// What is emitted for a command that the executor came back from: its
/// lines unless the engine is silent, and how it finished if it did, with
/// the outputs of its result: the exit code and the artifacts that are
/// there.
pub open spec fn report_summaries(
    command: Seq<char>,
    silent: bool,
    lines: Seq<Seq<char>>,
    result: Result<ExecutedTestResult, String>,
) -> Seq<EventSummary> {
    (if silent {
        Seq::<EventSummary>::empty()
    } else {
        line_summaries(command, lines)
    }) + (match result {
        Ok(r) => match r.outputs() {
            Some(outputs) => seq![EventSummary::Finished { command: r.name(), outputs }],
            None => Seq::<EventSummary>::empty(),
        },
        Err(_) => Seq::<EventSummary>::empty(),
    })
}

/// What the engine makes of an executor's report.
pub struct Settled {
    /// The events to emit, in order.
    pub events: Vec<Event>,
    /// The result to keep for the command.
    pub result: Result<ExecutedTestResult, SmeltErr>,
    /// What the scheduler is told.
    pub outcome: Outcome,
}

/// Takes the report of the executor for `command`: every line becomes an
/// output event unless the engine is silent; a result with outputs is kept
/// and emitted as the command's end; anything else is kept as a failure of
/// the executor.
pub fn settle(command: &Command, trace_id: &str, silent: bool, report: ExecutorReport) -> (out:
    Settled)
    ensures
        out.outcome == outcome_of(report.result),
        result_view(out.result) == kept_result(report.result),
        out.result matches Ok(r) ==> r.has_outputs() && !(r is Skipped),
        summaries(out.events@) == report_summaries(
            command.name@,
            silent,
            report.lines.deep_view(),
            report.result,
        ),
        forall|k: int| 0 <= k < out.events.len() ==> (#[trigger] out.events[k]).trace_id@ == trace_id@,
        forall|k: int|
            0 <= k < out.events.len() ==> !((#[trigger] out.events[k]).summary() is InvokeDone),
{
    let mut events: Vec<Event> = Vec::new();
    let ghost lines = report.lines.deep_view();
    if !silent {
        let mut i: usize = 0;
        while i < report.lines.len()
            invariant
                i <= report.lines.len(),
                lines == report.lines.deep_view(),
                events.len() == i,
                forall|k: int|
                    0 <= k < i ==> (#[trigger] events[k]).summary() == (EventSummary::Stdout {
                        command: command.name@,
                        output: lines[k],
                    }) && events[k].trace_id@ == trace_id@,
            decreases report.lines.len() - i,
        {
            events.push(
                Event::command_stdout(
                    command.name.clone(),
                    String::from_str(trace_id),
                    report.lines[i].clone(),
                ),
            );
            i += 1;
        }
        assert(summaries(events@) =~= line_summaries(command.name@, lines));
    } else {
        assert(summaries(events@) =~= Seq::<EventSummary>::empty());
    }
    let ghost before = events@;
    match report.result {
        Ok(r) => {
            let has = match &r {
                ExecutedTestResult::Success(val) => val.outputs.is_some(),
                ExecutedTestResult::MissingFiles { test_result, .. } => test_result.outputs.is_some(),
                ExecutedTestResult::Skipped => false,
            };
            if has {
                let exit_code = r.get_retcode();
                let finished = Event::command_finished(
                    r.clone().to_test_result(),
                    String::from_str(trace_id),
                );
                events.push(finished);
                proof {
                    assert(summaries(events@) =~= summaries(before).push(
                        EventSummary::Finished { command: r.name(), outputs: r.outputs()->0 },
                    ));
                }
                Settled { events, result: Ok(r), outcome: Outcome::Exited { exit_code } }
            } else {
                proof {
                    assert(summaries(events@) =~= summaries(before) + Seq::<EventSummary>::empty());
                }
                Settled {
                    events,
                    result: Err(
                        SmeltErr::ExecutorFailed(
                            String::from_str("the executor returned no outputs"),
                        ),
                    ),
                    outcome: Outcome::ExecutorFailed,
                }
            }
        },
        Err(cause) => {
            proof {
                assert(summaries(events@) =~= summaries(before) + Seq::<EventSummary>::empty());
            }
            Settled {
                events,
                result: Err(SmeltErr::ExecutorFailed(cause)),
                outcome: Outcome::ExecutorFailed,
            }
        },
    }
}

/// The error events for those of the first `upto` results that are errors.
pub open spec fn error_summaries(
    results: Seq<Result<ExecutedTestResult, SmeltErr>>,
    upto: int,
) -> Seq<EventSummary>
    decreases upto,
{
    if upto <= 0 {
        Seq::empty()
    } else {
        let rest = error_summaries(results, upto - 1);
        match results[upto - 1] {
            Ok(_) => rest,
            Err(e) => rest.push(
                EventSummary::Error { sig: SmeltErrorType::InternalError, payload: e.message() },
            ),
        }
    }
}

/// Closes an invocation: every result that is an error of the engine is
/// reported, in the order of the results, and then the end of the
/// invocation is emitted.
pub fn handle_result(compute_result: &Vec<Result<ExecutedTestResult, SmeltErr>>, trace: &str) -> (out:
    Vec<Event>)
    ensures
        summaries(out@) == error_summaries(compute_result@, compute_result.len() as int).push(
            EventSummary::InvokeDone,
        ),
        forall|k: int| 0 <= k < out.len() ==> (#[trigger] out[k]).trace_id@ == trace@,
        out.len() > 0,
        out[out.len() - 1].summary() is InvokeDone,
        forall|k: int| 0 <= k < out.len() - 1 ==> (#[trigger] out[k]).summary() is Error,
{
    let mut out: Vec<Event> = Vec::new();
    let mut i: usize = 0;
    assert(summaries(out@) =~= error_summaries(compute_result@, 0));
    while i < compute_result.len()
        invariant
            i <= compute_result.len(),
            summaries(out@) == error_summaries(compute_result@, i as int),
            forall|k: int| 0 <= k < out.len() ==> (#[trigger] out[k]).trace_id@ == trace@,
            forall|k: int| 0 <= k < out.len() ==> (#[trigger] out[k]).summary() is Error,
        decreases compute_result.len() - i,
    {
        let ghost before = out@;
        match &compute_result[i] {
            Err(rt_err) => {
                out.push(Event::runtime_error(rt_err.to_string(), String::from_str(trace)));
                assert(summaries(out@) =~= summaries(before).push(
                    EventSummary::Error {
                        sig: SmeltErrorType::InternalError,
                        payload: rt_err.message(),
                    },
                ));
            },
            Ok(_) => {},
        }
        i += 1;
    }
    let ghost before = out@;
    out.push(Event::done(String::from_str(trace)));
    assert(summaries(out@) =~= summaries(before).push(EventSummary::InvokeDone));
    out
}

/// The exit code that a result carries, if it carries one.
pub open spec fn exit_code_in(result: ExecutedTestResultView) -> Option<int> {
    match result {
        ExecutedTestResultView::Success(val) => match val.outputs {
            Some(outputs) => Some(outputs.exit_code),
            None => None,
        },
        ExecutedTestResultView::MissingFiles { test_result, .. } => match test_result.outputs {
            Some(outputs) => Some(outputs.exit_code),
            None => None,
        },
        ExecutedTestResultView::Skipped => None,
    }
}

/// The result kept for a command agrees with the state it ended in: a
/// command that ran to its end has a result with its exit code, one that
/// the executor failed on has the executor's error, and one that was
/// skipped has the skipped result.
pub open spec fn result_matches(
    state: NodeState,
    result: Result<ExecutedTestResultView, SmeltErrView>,
) -> bool {
    match state {
        NodeState::Completed { exit_code } => result matches Ok(r) && exit_code_in(r) == Some(
            exit_code as int,
        ),
        NodeState::Failed { .. } => result matches Err(SmeltErrView::ExecutorFailed(_)),
        NodeState::Skipped => result == Ok::<ExecutedTestResultView, SmeltErrView>(
            ExecutedTestResultView::Skipped,
        ),
        _ => false,
    }
}

/// A copy of a result.
fn clone_result(result: &Result<ExecutedTestResult, SmeltErr>) -> (out: Result<
    ExecutedTestResult,
    SmeltErr,
>)
    ensures
        result_view(out) == result_view(*result),
{
    match result {
        Ok(r) => Ok(r.clone()),
        Err(e) => Err(e.clone()),
    }
}

/// What the engine did with one command while it ran an invocation.
pub enum DriverStep {
    /// The command was handed to the executor, which wrote `lines` and
    /// handed back `result`.
    Ran { command: int, lines: Seq<Seq<char>>, result: Result<ExecutedTestResult, String> },
    /// The workspace of the command could not be prepared.
    FailedToStart { command: int },
    /// The command was skipped.
    Skipped { command: int },
}

impl DriverStep {
    /// The events that the step sends.
    pub open spec fn summaries(self, cmds: Seq<CommandView>, silent: bool) -> Seq<EventSummary> {
        match self {
            DriverStep::Ran { command, lines, result } => seq![
                EventSummary::Started { command: cmds[command].name },
            ] + report_summaries(cmds[command].name, silent, lines, result),
            DriverStep::FailedToStart { command } => Seq::empty(),
            DriverStep::Skipped { command } => seq![
                EventSummary::Skipped { command: cmds[command].name },
            ],
        }
    }

    /// What the step adds to the trace of the invocation.
    pub open spec fn trace(self) -> Seq<TraceEvent> {
        match self {
            DriverStep::Ran { command, lines, result } => seq![
                TraceEvent::Command { command, kind: Kind::Started },
                TraceEvent::Command { command, kind: outcome_of(result).kind() },
            ],
            DriverStep::FailedToStart { command } => seq![
                TraceEvent::Command { command, kind: Kind::Failed },
            ],
            DriverStep::Skipped { command } => seq![
                TraceEvent::Command { command, kind: Kind::Skipped },
            ],
        }
    }
}

/// The events that the steps send, in order.
pub open spec fn log_of(cmds: Seq<CommandView>, silent: bool, steps: Seq<DriverStep>) -> Seq<
    EventSummary,
>
    decreases steps.len(),
{
    if steps.len() == 0 {
        Seq::empty()
    } else {
        log_of(cmds, silent, steps.drop_last()) + steps.last().summaries(cmds, silent)
    }
}

/// What the steps add to the trace of the invocation, in order.
pub open spec fn trace_of(steps: Seq<DriverStep>) -> Seq<TraceEvent>
    decreases steps.len(),
{
    if steps.len() == 0 {
        Seq::empty()
    } else {
        trace_of(steps.drop_last()) + steps.last().trace()
    }
}

proof fn lemma_summaries_concat(a: Seq<Event>, b: Seq<Event>)
    ensures
        summaries(a + b) == summaries(a) + summaries(b),
        summaries(a.push(b[0])) == summaries(a).push(b[0].summary()),
{
    assert(summaries(a + b) =~= summaries(a) + summaries(b));
    assert(summaries(a.push(b[0])) =~= summaries(a).push(b[0].summary()));
}

/// The skipped result, as plain values.
pub open spec fn skipped_result() -> Result<ExecutedTestResultView, SmeltErrView> {
    Ok(ExecutedTestResultView::Skipped)
}

/// What is known of the result of a command: the view of its result if
/// one was kept, else the skipped result.
pub open spec fn known_result(kept: Option<Result<ExecutedTestResult, SmeltErr>>) -> Result<
    ExecutedTestResultView,
    SmeltErrView,
> {
    match kept {
        Some(result) => result_view(result),
        None => skipped_result(),
    }
}

/// The results of the commands of one invocation, kept as they come in.
pub struct RunResults {
    kept: Vec<Option<Result<ExecutedTestResult, SmeltErr>>>,
}

impl RunResults {
    /// What is kept for each command.
    pub closed spec fn kept(&self) -> Seq<Option<Result<ExecutedTestResult, SmeltErr>>> {
        self.kept@
    }

    /// Room for the results of `n` commands, none of which is known yet.
    pub fn new(n: usize) -> (out: Self)
        ensures
            out.kept().len() == n,
            forall|i: int| 0 <= i < n ==> (#[trigger] out.kept()[i]) is None,
    {
        let mut kept: Vec<Option<Result<ExecutedTestResult, SmeltErr>>> = Vec::new();
        let mut f: usize = 0;
        while f < n
            invariant
                f <= n,
                kept.len() == f,
                forall|i: int| 0 <= i < f ==> (#[trigger] kept[i]) is None,
            decreases n - f,
        {
            kept.push(None);
            f += 1;
        }
        RunResults { kept }
    }

    /// Keeps the result of `command`.
    pub fn record(&mut self, command: usize, result: Result<ExecutedTestResult, SmeltErr>)
        requires
            command < old(self).kept().len(),
        ensures
            final(self).kept() == old(self).kept().update(command as int, Some(result)),
    {
        self.kept.set(command, Some(result));
    }

    /// The results of the commands that were asked for, in their order.  A
    /// command that is asked for twice has its result twice; one of which
    /// nothing is kept counts as skipped.
    pub fn for_targets(&self, targets: &Vec<usize>) -> (out: Vec<
        Result<ExecutedTestResult, SmeltErr>,
    >)
        requires
            forall|t: int| 0 <= t < targets.len() ==> (#[trigger] targets[t]) < self.kept().len(),
        ensures
            out.len() == targets.len(),
            forall|t: int|
                0 <= t < targets.len() ==> result_view(#[trigger] out[t]) == known_result(
                    self.kept()[targets[t] as int],
                ),
    {
        let mut out: Vec<Result<ExecutedTestResult, SmeltErr>> = Vec::new();
        let mut t: usize = 0;
        while t < targets.len()
            invariant
                t <= targets.len(),
                out.len() == t,
                forall|u: int|
                    0 <= u < targets.len() ==> (#[trigger] targets[u]) < self.kept().len(),
                forall|u: int|
                    0 <= u < t ==> result_view(#[trigger] out[u]) == known_result(
                        self.kept()[targets[u] as int],
                    ),
            decreases targets.len() - t,
        {
            let target = targets[t];
            let kept = match &self.kept[target] {
                Some(result) => clone_result(result),
                None => Ok(ExecutedTestResult::Skipped),
            };
            out.push(kept);
            t += 1;
        }
        out
    }
}

/// Runs an invocation to its end, one command at a time, on a budget that
/// nobody else takes from meanwhile.  The workspace of each command that
/// is admitted is prepared; if that fails the command has failed and no
/// start is emitted for it.  Else its start is emitted, it is handed to
/// the executor and its report is taken down.  Each command that is
/// skipped is reported as skipped.  When nothing is left, the errors of the
/// commands that were asked for are reported and the end of the
/// invocation is emitted, which is the last event and the only one of its
/// kind.  The results are those of the commands asked for, in their order.
pub fn execute_commands<E: Executor>(
    graph: &CommandGraph,
    run: Run,
    executor: &mut E,
    budget: &mut Budget,
    trace_id: &str,
    events: &mut Vec<Event>,
) -> (out: (Invocation, Vec<Result<ExecutedTestResult, SmeltErr>>))
    requires
        graph.wf(),
        graph.begun(&run.invocation, run.targets@),
        run.invocation.shares(old(budget)),
        old(budget).idle(),
    ensures
        out.0.wf(),
        out.0.done(),
        out.0.same_plan(&run.invocation),
        out.0.shares(final(budget)),
        final(budget).idle(),
        final(budget).others_as_in(old(budget), run.invocation.id()),
        out.0.states().len() == graph.commands().len(),
        forall|i: int|
            0 <= i < graph.commands().len() ==> ((#[trigger] out.0.states()[i]) is Idle
                <==> run.invocation.states()[i] is Idle),
        out.1.len() == run.targets.len(),
        forall|t: int|
            0 <= t < run.targets.len() ==> result_matches(
                out.0.states()[run.targets[t] as int],
                result_view(#[trigger] out.1[t]),
            ),
        final(events).len() > old(events).len(),
        final(events)@.subrange(0, old(events).len() as int) == old(events)@,
        forall|k: int|
            old(events).len() <= k < final(events).len() ==> (#[trigger] final(events)[k]).trace_id@
                == trace_id@,
        final(events)[final(events).len() - 1].summary() is InvokeDone,
        forall|k: int|
            old(events).len() <= k < final(events).len() - 1 ==> !((#[trigger] final(events)[k]).summary() is InvokeDone),
        exists|steps: Seq<DriverStep>|
            {
                &&& out.0.trace() == (#[trigger] trace_of(steps)).push(TraceEvent::Done)
                &&& summaries(
                    final(events)@.subrange(old(events).len() as int, final(events).len() as int),
                ) == log_of(graph.commands(), graph.cfg().silent, steps) + error_summaries(
                    out.1@,
                    out.1.len() as int,
                ).push(EventSummary::InvokeDone)
            },
{
    let Run { targets, invocation } = run;
    let mut inv = invocation;
    let n = graph.len();
    let silent = graph.get_cfg().silent;
    let ghost begin = inv.states();
    let ghost first = events.len();
    let ghost given = events@;
    let ghost mut steps: Seq<DriverStep> = Seq::empty();
    let ghost mut added: Seq<Event> = Seq::empty();
    let ghost cmds = graph.commands();
    let mut results = RunResults::new(n);
    proof {
        assert forall|i: int| 0 <= i < n implies !(#[trigger] inv.states()[i]).holds() by {
            assert(inv.states()[i] is Idle || inv.states()[i] is Scheduled);
        }
        assert(events@ =~= given + added);
        assert(summaries(added) =~= log_of(cmds, silent, steps));
    }
    loop
        invariant_except_break
            !inv.done(),
            inv.trace() == trace_of(steps),
        invariant
            n == graph.commands().len(),
            graph.wf(),
            inv.wf(),
            inv.shares(budget),
            budget.idle(),
            budget.others_as_in(old(budget), invocation.id()),
            inv.same_plan(&invocation),
            inv.edges() == graph.edges(),
            inv.states().len() == n,
            begin == invocation.states(),
            begin.len() == n,
            results.kept().len() == n,
            silent == graph.cfg().silent,
            forall|i: int| 0 <= i < n ==> !(#[trigger] inv.states()[i]).holds(),
            forall|i: int| 0 <= i < n ==> ((#[trigger] inv.states()[i]) is Idle <==> begin[i] is Idle),
            forall|i: int|
                0 <= i < n && (#[trigger] inv.states()[i]).terminal() ==> results.kept()[i] is Some
                    && result_matches(inv.states()[i], result_view(results.kept()[i]->0)),
            first == given.len(),
            first <= events.len(),
            events@.subrange(0, first as int) == given,
            cmds == graph.commands(),
            events@ == given + added,
            summaries(added) == log_of(cmds, silent, steps),
            forall|k: int| first <= k < events.len() ==> (#[trigger] events[k]).trace_id@ == trace_id@,
            forall|k: int|
                first <= k < events.len() ==> !((#[trigger] events[k]).summary() is InvokeDone),
        ensures
            inv.done(),
            inv.trace() == trace_of(steps).push(TraceEvent::Done),
        decreases unfinished(inv.states(), n as int),
    {
        let ghost st = inv.states();
        let ghost log = events@;
        let ghost kept_before = results.kept();
        proof {
            lemma_held_bounds(st, inv.permits(), n as int);
        }
        let step = inv.next_step(budget);
        match step {
            Step::Start { command } => {
                let the_command = graph.command(command);
                let ghost st1 = st.update(command as int, NodeState::Admitted);
                proof {
                    lemma_held_update(st, inv.permits(), command as int, NodeState::Admitted, n as int);
                }
                match executor.prepare(the_command, trace_id, graph.get_cfg()) {
                    Err(cause) => {
                        inv.command_finished(budget, command, Outcome::ExecutorFailed);
                        results.record(command, Err(SmeltErr::ExecutorFailed(cause)));
                        proof {
                            lemma_held_update(
                                st1,
                                inv.permits(),
                                command as int,
                                NodeState::Failed { started: false },
                                n as int,
                            );
                            let step = DriverStep::FailedToStart { command: command as int };
                            let old_steps = steps;
                            steps = old_steps.push(step);
                            assert(old_steps.push(step).drop_last() =~= old_steps);
                            assert(summaries(added) =~= log_of(cmds, silent, old_steps)
                                + step.summaries(cmds, silent));
                            assert(inv.trace() =~= trace_of(old_steps) + step.trace());
                        }
                    },
                    Ok(()) => {
                        inv.command_started(command);
                        events.push(
                            Event::command_started(
                                the_command.name.clone(),
                                String::from_str(trace_id),
                            ),
                        );
                        let report = executor.execute_commands(
                            the_command,
                            trace_id,
                            graph.get_cfg(),
                        );
                        let ghost lines = report.lines.deep_view();
                        let ghost reported = report.result;
                        let settled = settle(the_command, trace_id, silent, report);
                        let Settled { events: mut more, result, outcome } = settled;
                        let ghost mid = events@;
                        let ghost extra = more@;
                        events.append(&mut more);
                        inv.command_finished(budget, command, outcome);
                        results.record(command, result);
                        proof {
                            let st2 = st1.update(command as int, NodeState::Running);
                            lemma_held_update(
                                st1,
                                inv.permits(),
                                command as int,
                                NodeState::Running,
                                n as int,
                            );
                            lemma_held_update(
                                st2,
                                inv.permits(),
                                command as int,
                                outcome.state(NodeState::Running),
                                n as int,
                            );
                            assert(events@ =~= mid + extra);
                            let step = DriverStep::Ran {
                                command: command as int,
                                lines,
                                result: reported,
                            };
                            let old_added = added;
                            let old_steps = steps;
                            steps = old_steps.push(step);
                            added = old_added.push(mid[mid.len() - 1]) + extra;
                            assert(old_steps.push(step).drop_last() =~= old_steps);
                            assert(mid =~= log.push(mid[mid.len() - 1]));
                            assert(events@ =~= given + added);
                            lemma_summaries_concat(old_added.push(mid[mid.len() - 1]), extra);
                            lemma_summaries_concat(old_added, seq![mid[mid.len() - 1]]);
                            assert(mid[mid.len() - 1].summary() == (EventSummary::Started {
                                command: cmds[command as int].name,
                            }));
                            assert(summaries(added) =~= log_of(cmds, silent, old_steps)
                                + step.summaries(cmds, silent));
                            assert(inv.trace() =~= trace_of(old_steps) + step.trace());
                            assert forall|k: int| first <= k < events.len() implies (
                            #[trigger] events[k]).trace_id@ == trace_id@ && !(events[k].summary()
                                is InvokeDone) by {
                                if k < log.len() {
                                    assert(events[k] == log[k]);
                                } else if k == log.len() {
                                } else {
                                    assert(events[k] == extra[k - mid.len()]);
                                }
                            }
                        }
                    },
                }
                proof {
                    assert(events@.subrange(0, first as int) =~= given) by {
                        assert(log.subrange(0, first as int) == given);
                    }
                    assert forall|i: int| 0 <= i < n implies !(#[trigger] inv.states()[i]).holds() by {
                        if i != command as int {
                            assert(inv.states()[i] == st[i]);
                        }
                    }
                    assert forall|i: int|
                        0 <= i < n && (#[trigger] inv.states()[i]).terminal() implies results.kept()[i] is Some
                        && result_matches(inv.states()[i], result_view(results.kept()[i]->0)) by {
                        if i != command as int {
                            assert(inv.states()[i] == st[i]);
                            assert(results.kept()[i] == kept_before[i]);
                        }
                    }
                }
            },
            Step::Skip { command } => {
                let the_command = graph.command(command);
                events.push(
                    Event::command_skipped(the_command.name.clone(), String::from_str(trace_id)),
                );
                results.record(command, Ok(ExecutedTestResult::Skipped));
                proof {
                    lemma_held_update(st, inv.permits(), command as int, NodeState::Skipped, n as int);
                    let step = DriverStep::Skipped { command: command as int };
                    let old_added = added;
                    let old_steps = steps;
                    steps = old_steps.push(step);
                    added = old_added.push(events@[events.len() - 1]);
                    assert(old_steps.push(step).drop_last() =~= old_steps);
                    assert(events@ =~= given + added);
                    lemma_summaries_concat(old_added, seq![events@[events.len() - 1]]);
                    assert(summaries(added) =~= log_of(cmds, silent, old_steps) + step.summaries(
                        cmds,
                        silent,
                    ));
                    assert(inv.trace() =~= trace_of(old_steps) + step.trace());
                    assert(events@.subrange(0, first as int) =~= given) by {
                        assert(log.subrange(0, first as int) == given);
                    }
                    assert forall|k: int| first <= k < events.len() implies (
                    #[trigger] events[k]).trace_id@ == trace_id@ && !(events[k].summary()
                        is InvokeDone) by {
                        if k < log.len() {
                            assert(events[k] == log[k]);
                        }
                    }
                    assert forall|i: int| 0 <= i < n implies !(#[trigger] inv.states()[i]).holds() by {
                        if i != command as int {
                            assert(inv.states()[i] == st[i]);
                        }
                    }
                    assert forall|i: int|
                        0 <= i < n && (#[trigger] inv.states()[i]).terminal() implies results.kept()[i] is Some
                        && result_matches(inv.states()[i], result_view(results.kept()[i]->0)) by {
                        if i != command as int {
                            assert(inv.states()[i] == st[i]);
                            assert(results.kept()[i] == kept_before[i]);
                        }
                    }
                }
            },
            Step::Wait => {
                proof {
                    if invocation_holds(st) {
                        let j = choose|j: int| 0 <= j < st.len() && (#[trigger] st[j]).holds();
                        assert(!st[j].holds());
                    }
                }
            },
            Step::Finish => {
                break ;
            },
        }
        proof {
            lemma_held_bounds(inv.states(), inv.permits(), n as int);
        }
    }
    proof {
        crate::scheduler::law_single_done(&inv);
        assert forall|t: int| 0 <= t < targets.len() implies (#[trigger] targets[t]) < n by {
            assert(targets@[t] < graph.commands().len());
        }
    }
    let results = results.for_targets(&targets);
    proof {
        assert forall|t: int| 0 <= t < targets.len() implies result_matches(
            inv.states()[targets[t] as int],
            result_view(#[trigger] results[t]),
        ) by {
            let x = targets[t] as int;
            assert(begin[x] is Scheduled);
            assert(!(inv.states()[x] is Idle));
            assert(inv.states()[x].terminal());
        }
    }
    let mut closing = handle_result(&results, trace_id);
    let ghost log = events@;
    let ghost extra = closing@;
    events.append(&mut closing);
    proof {
        assert(events@ =~= log + extra);
        assert(events@.subrange(first as int, events.len() as int) =~= added + extra);
        lemma_summaries_concat(added, extra);
        assert(events@.subrange(0, first as int) =~= given) by {
            assert(log.subrange(0, first as int) == given);
        }
        assert forall|k: int| first <= k < events.len() implies (#[trigger] events[k]).trace_id@
            == trace_id@ by {
            if k < log.len() {
                assert(events[k] == log[k]);
            } else {
                assert(events[k] == extra[k - log.len()]);
            }
        }
        assert forall|k: int| first <= k < events.len() - 1 implies !((
        #[trigger] events[k]).summary() is InvokeDone) by {
            if k < log.len() {
                assert(events[k] == log[k]);
            } else {
                assert(events[k] == extra[k - log.len()]);
            }
        }
        assert(events[events.len() - 1] == extra[extra.len() - 1]);
    }
    (inv, results)
}

/// Some command holds permits.
pub open spec fn invocation_holds(st: Seq<NodeState>) -> bool {
    exists|j: int| 0 <= j < st.len() && (#[trigger] st[j]).holds()
}

/// An invocation with the trace id that all its events carry.
pub struct Transaction {
    pub trace_id: String,
    pub run: Run,
}

/// The event opens the invocation `trace_id`, and its preamble names the
/// root and what the revision control system said.
pub open spec fn opens_with(
    event: Event,
    trace_id: Seq<char>,
    smelt_root: Seq<char>,
    git: GitInfo,
) -> bool {
    &&& event.trace_id@ == trace_id
    &&& event.et matches Some(
        Et::Invoke(InvokeEvent { invoke_variant: Some(InvokeVariant::Start(start)) }),
    ) && start.smelt_root@ == smelt_root && start.git_hash == git.hash && start.git_branch
        == git.branch && start.git_repo == git.repo
}

/// Opens a transaction for an invocation that was begun: it gets a trace
/// id of its own, and the event that opens it carries the preamble, with
/// the root and what the revision control system said.
pub fn start_tx(run: Run, smelt_root: String, git: GitInfo) -> (out: (Transaction, Event))
    ensures
        out.0.run == run,
        out.0.trace_id@.len() == 36,
        out.1.summary() is InvokeStart,
        opens_with(out.1, out.0.trace_id@, smelt_root@, git),
{
    let mut data = InvocationData::new();
    data.init_trace_id();
    let trace_id = data.get_trace_id();
    let start = invoke_start_message(trace_id.clone(), smelt_root, git);
    (Transaction { trace_id, run }, start)
}

/// What a client asks, ready to be acted on.
#[derive(Debug, PartialEq, Eq)]
pub enum Request {
    /// Take a new command set: the commands as they were read from what
    /// the client sent, or why they could not be read.
    SetCommands(Result<Vec<Command>, String>),
    RunOne(String),
    RunMany(Vec<String>),
    RunType(String),
    GetConfig,
    /// A submission that asks for nothing.
    Empty,
}

/// What the service replies when all went well and there is nothing to
/// hand back.
pub open spec fn plain_ok() -> Result<ClientResp, String> {
    Ok(ClientResp { client_responses: None })
}

/// What a submission that asks for nothing is answered with.
pub open spec fn no_command() -> Seq<char> {
    "a request without a command"@
}

/// What the service makes of a request.
pub struct Answer {
    /// The one reply that the client gets.
    pub reply: Result<ClientResp, String>,
    /// The events to send on the client's stream, in order.
    pub events: Vec<Event>,
    /// The transaction to run, if the request began one.
    pub started: Option<Transaction>,
}

impl Answer {
    /// The request is refused with the text of `error`, nothing is sent on
    /// the stream and nothing is begun.
    pub open spec fn refused_with(&self, error: Seq<char>) -> bool {
        &&& self.reply matches Err(text) && text@ == error
        &&& self.events.len() == 0
        &&& self.started is None
    }

    /// The request is accepted and a transaction for `targets` is begun on
    /// the budget, whose opening is the one event sent; it carries the
    /// root of the engine and what the revision control system said.
    pub open spec fn began(
        &self,
        graph: &CommandGraph,
        targets: Seq<usize>,
        before: &Budget,
        after: &Budget,
        git: GitInfo,
    ) -> bool {
        &&& self.reply == plain_ok()
        &&& self.started matches Some(tx) && tx.run.targets@ == targets && graph.opened(
            &tx.run.invocation,
            targets,
            before,
            after,
        ) && self.events.len() == 1 && self.events[0].summary() is InvokeStart && opens_with(
            self.events[0],
            tx.trace_id@,
            graph.cfg().smelt_root@,
            git,
        )
    }
}

/// One event for each reference that leads nowhere, all under the trace
/// id `VALIDATE_ERROR`.
pub fn validation_events(errors: &Vec<SmeltErr>) -> (out: Vec<Event>)
    ensures
        out.len() == errors.len(),
        forall|k: int|
            0 <= k < out.len() ==> (#[trigger] out[k]).summary() == (EventSummary::Error {
                sig: SmeltErrorType::ValidateError,
                payload: errors[k].message(),
            }) && out[k].trace_id@ == "VALIDATE_ERROR"@,
{
    let mut out: Vec<Event> = Vec::new();
    let mut i: usize = 0;
    while i < errors.len()
        invariant
            i <= errors.len(),
            out.len() == i,
            forall|k: int|
                0 <= k < i ==> (#[trigger] out[k]).summary() == (EventSummary::Error {
                    sig: SmeltErrorType::ValidateError,
                    payload: errors[k].message(),
                }) && out[k].trace_id@ == "VALIDATE_ERROR"@,
        decreases errors.len() - i,
    {
        out.push(Event::graph_validate_error(errors[i].to_string()));
        i += 1;
    }
    out
}

/// Answers a request to run something, given how beginning it went.
fn answer_run(began: Result<Run, SmeltErr>, smelt_root: String, git: GitInfo) -> (out: Answer)
    ensures
        match began {
            Ok(run) => {
                &&& out.reply == plain_ok()
                &&& out.started matches Some(tx) && tx.run == run && out.events.len() == 1
                    && out.events[0].summary() is InvokeStart && opens_with(
                    out.events[0],
                    tx.trace_id@,
                    smelt_root@,
                    git,
                )
            },
            Err(e) => out.refused_with(e.message()),
        },
{
    match began {
        Ok(run) => {
            let (tx, start) = start_tx(run, smelt_root, git);
            let mut events: Vec<Event> = Vec::new();
            events.push(start);
            Answer { reply: Ok(ClientResp { client_responses: None }), events, started: Some(tx) }
        },
        Err(e) => Answer { reply: Err(e.to_string()), events: Vec::new(), started: None },
    }
}

/// Acts on one request.
///
/// A command set that could not be read, or in which something is
/// declared twice, or in which a command depends on itself, is refused in
/// the reply alone.  References that lead nowhere are refused in the reply
/// and reported one by one on the stream.  A request to run begins a
/// transaction on the budget of the engine, unless it names a command or a
/// type that is not known; then it is refused with the error for the first
/// name that is not known.  The configuration is handed back as it is.  A
/// submission that asks for nothing is refused, and reported as an error
/// of the client.
pub fn eat_command(
    graph: &mut CommandGraph,
    budget: &mut Budget,
    request: Request,
    git: GitInfo,
) -> (out: Answer)
    requires
        old(graph).wf(),
        old(graph).budgeted(old(budget)),
    ensures
        final(graph).wf(),
        final(graph).cfg() == old(graph).cfg(),
        final(graph).budgeted(final(budget)),
        !(request is SetCommands) ==> *final(graph) == *old(graph),
        out.started is None ==> *final(budget) == *old(budget),
        match request {
            Request::SetCommands(Err(cause)) => *final(graph) == *old(graph) && out.refused_with(
                SmeltErr::SerdeYamlError(cause).message(),
            ),
            Request::SetCommands(Ok(commands)) => exists|res: Result<(), SmeltErr>|
                {
                    &&& #[trigger] final(graph).set_outcome(old(graph), commands.deep_view(), res)
                    &&& out.started is None
                    &&& match res {
                        Ok(()) => out.reply == plain_ok() && out.events.len() == 0,
                        Err(e) => {
                            &&& out.reply matches Err(text) && text@ == e.message()
                            &&& if all_clean(commands.deep_view()) {
                                &&& out.events.len() == missing(commands.deep_view()).len()
                                &&& forall|k: int|
                                    0 <= k < out.events.len() ==> (
                                    #[trigger] out.events[k]).summary() == (EventSummary::Error {
                                        sig: SmeltErrorType::ValidateError,
                                        payload: missing(commands.deep_view())[k].message(),
                                    }) && out.events[k].trace_id@ == "VALIDATE_ERROR"@
                            } else {
                                out.events.len() == 0
                            }
                        },
                    }
                },
            Request::RunOne(name) => if name_index(old(graph).commands(), name@) < old(graph).commands().len() {
                out.began(
                    old(graph),
                    seq![name_index(old(graph).commands(), name@) as usize],
                    old(budget),
                    final(budget),
                    git,
                )
            } else {
                out.refused_with(
                    (SmeltErr::MissingCommandDependency { missing_dep_name: name }).message(),
                )
            },
            Request::RunMany(names) => if forall|k: int|
                0 <= k < names.len() ==> name_index(old(graph).commands(), #[trigger] names[k]@)
                    < old(graph).commands().len() {
                out.started matches Some(tx) && out.began(
                    old(graph),
                    tx.run.targets@,
                    old(budget),
                    final(budget),
                    git,
                ) && tx.run.targets.len() == names.len() && forall|k: int|
                    0 <= k < names.len() ==> (#[trigger] tx.run.targets[k]) == name_index(
                        old(graph).commands(),
                        names[k]@,
                    )
            } else {
                exists|k: int|
                    {
                        &&& 0 <= k < names.len()
                        &&& name_index(old(graph).commands(), #[trigger] names[k]@) == old(graph).commands().len()
                        &&& forall|j: int|
                            0 <= j < k ==> name_index(old(graph).commands(), #[trigger] names[j]@)
                                < old(graph).commands().len()
                        &&& out.refused_with(
                            (SmeltErrView::MissingCommandDependency {
                                missing_dep_name: names[k]@,
                            }).message(),
                        )
                    }
            },
            Request::RunType(typeinfo) => match TargetType::named(lowercased(typeinfo@)) {
                Some(tt) => out.began(
                    old(graph),
                    typed_upto(old(graph).commands(), tt, old(graph).commands().len() as int),
                    old(budget),
                    final(budget),
                    git,
                ),
                None => out.refused_with(SmeltErr::BadTargetType(typeinfo).message()),
            },
            Request::GetConfig => {
                &&& out.reply matches Ok(resp) && (resp.client_responses matches Some(
                    ClientResponses::CurrentCfg(cfg),
                ) && cfg@ == old(graph).cfg()@)
                &&& out.events.len() == 0
                &&& out.started is None
            },
            Request::Empty => {
                &&& out.reply matches Err(text) && text@ == no_command()
                &&& out.events.len() == 1 && out.events[0].trace_id@ == "CLIENT_ERROR"@
                    && out.events[0].summary() == (EventSummary::Error {
                    sig: SmeltErrorType::ClientError,
                    payload: no_command(),
                })
                &&& out.started is None
            },
        },
{
    let smelt_root = graph.get_cfg().smelt_root.clone();
    match request {
        Request::SetCommands(Err(cause)) => {
            let e = SmeltErr::SerdeYamlError(cause);
            Answer { reply: Err(e.to_string()), events: Vec::new(), started: None }
        },
        Request::SetCommands(Ok(commands)) => {
            let ghost cmds = commands.deep_view();
            let (res, errors) = graph.set_commands_reporting(commands);
            match res {
                Ok(()) => {
                    proof {
                        assert(graph.set_outcome(old(graph), cmds, res));
                    }
                    Answer {
                        reply: Ok(ClientResp { client_responses: None }),
                        events: Vec::new(),
                        started: None,
                    }
                },
                Err(e) => {
                    let events = validation_events(&errors);
                    proof {
                        assert(graph.set_outcome(old(graph), cmds, res));
                        assert(errors.deep_view().len() == errors.len());
                        assert forall|k: int| 0 <= k < events.len() implies (
                        #[trigger] events[k]).summary() == (EventSummary::Error {
                            sig: SmeltErrorType::ValidateError,
                            payload: errors.deep_view()[k].message(),
                        }) by {
                            assert(errors.deep_view()[k] == errors[k]@);
                        }
                    }
                    Answer { reply: Err(e.to_string()), events, started: None }
                },
            }
        },
        Request::RunOne(name) => {
            let began = graph.run_one_test(name.as_str(), budget);
            answer_run(began, smelt_root, git)
        },
        Request::RunMany(names) => {
            let began = graph.run_many_tests(&names, budget);
            let ghost outcome = began;
            let out = answer_run(began, smelt_root, git);
            proof {
                match outcome {
                    Err(e) => {
                        let k = choose|k: int|
                            {
                                &&& 0 <= k < names.len()
                                &&& name_index(graph.commands(), #[trigger] names[k]@)
                                    == graph.commands().len()
                                &&& forall|j: int|
                                    0 <= j < k ==> name_index(
                                        graph.commands(),
                                        #[trigger] names[j]@,
                                    ) < graph.commands().len()
                                &&& e@ == (SmeltErrView::MissingCommandDependency {
                                    missing_dep_name: names[k]@,
                                })
                            };
                        assert(name_index(graph.commands(), names[k]@) == graph.commands().len());
                        assert(out.refused_with(
                            (SmeltErrView::MissingCommandDependency {
                                missing_dep_name: names[k]@,
                            }).message(),
                        ));
                    },
                    Ok(run) => {
                        assert forall|k: int| 0 <= k < names.len() implies name_index(
                            graph.commands(),
                            #[trigger] names[k]@,
                        ) < graph.commands().len() by {
                            assert(run.targets[k] < graph.commands().len());
                        }
                    },
                }
            }
            out
        },
        Request::RunType(typeinfo) => {
            let began = graph.run_all_typed(typeinfo.as_str(), budget);
            answer_run(began, smelt_root, git)
        },
        Request::GetConfig => {
            let cfg = graph.get_cfg().clone();
            Answer {
                reply: Ok(ClientResp { client_responses: Some(ClientResponses::CurrentCfg(cfg)) }),
                events: Vec::new(),
                started: None,
            }
        },
        Request::Empty => {
            let mut events: Vec<Event> = Vec::new();
            events.push(Event::client_error(String::from_str("a request without a command")));
            Answer {
                reply: Err(String::from_str("a request without a command")),
                events,
                started: None,
            }
        },
    }
}

/// Runs a transaction to its end with the given executor, on a budget
/// that nobody else takes from meanwhile, and hands back the results of
/// the commands asked for, in their order.  The events of the run are
/// appended to `events`; the last of them ends the invocation.
pub fn run_tests<E: Executor>(
    graph: &CommandGraph,
    tx: Transaction,
    executor: &mut E,
    budget: &mut Budget,
    events: &mut Vec<Event>,
) -> (out: Vec<Result<ExecutedTestResult, SmeltErr>>)
    requires
        graph.wf(),
        graph.begun(&tx.run.invocation, tx.run.targets@),
        tx.run.invocation.shares(old(budget)),
        old(budget).idle(),
    ensures
        out.len() == tx.run.targets.len(),
        final(budget).idle(),
        final(budget).wf(),
        final(budget).others_as_in(old(budget), tx.run.invocation.id()),
        final(events).len() > old(events).len(),
        final(events)@.subrange(0, old(events).len() as int) == old(events)@,
        forall|k: int|
            old(events).len() <= k < final(events).len() ==> (#[trigger] final(events)[k]).trace_id@
                == tx.trace_id@,
        final(events)[final(events).len() - 1].summary() is InvokeDone,
        forall|k: int|
            old(events).len() <= k < final(events).len() - 1 ==> !((#[trigger] final(events)[k]).summary() is InvokeDone),
        exists|steps: Seq<DriverStep>|
            summaries(
                final(events)@.subrange(old(events).len() as int, final(events).len() as int),
            ) == (#[trigger] log_of(graph.commands(), graph.cfg().silent, steps))
                + error_summaries(out@, out.len() as int).push(EventSummary::InvokeDone),
{
    let Transaction { trace_id, run } = tx;
    let (_, results) = execute_commands(graph, run, executor, budget, trace_id.as_str(), events);
    results
}

/// The state that stopping leaves a command in: one that runs is
/// cancelled, one whose workspace was still being prepared has failed
/// before its start, and every other stays as it is.
pub open spec fn stopped(state: NodeState) -> NodeState {
    if state is Running {
        NodeState::Cancelled
    } else if state is Admitted {
        NodeState::Failed { started: false }
    } else {
        state
    }
}

/// The states after every command that holds permits was stopped.
pub open spec fn cancelled_states(st: Seq<NodeState>) -> Seq<NodeState> {
    Seq::new(st.len(), |i: int| stopped(st[i]))
}

/// One event for each of the first `upto` commands that runs.
pub open spec fn cancelled_summaries(cmds: Seq<CommandView>, st: Seq<NodeState>, upto: int) -> Seq<
    EventSummary,
>
    decreases upto,
{
    if upto <= 0 {
        Seq::empty()
    } else {
        let rest = cancelled_summaries(cmds, st, upto - 1);
        if st[upto - 1] is Running {
            rest.push(EventSummary::Cancelled { command: cmds[upto - 1].name })
        } else {
            rest
        }
    }
}

/// Stops every command that holds permits, in the order of the set, and
/// hands back the event for each that ran: it is cancelled.  A command
/// whose workspace was still being prepared has failed before its start,
/// and nothing is emitted for it.  The permits of all of them go back to
/// the budget; what depends on them will be skipped.
pub fn cancel_running(
    graph: &CommandGraph,
    inv: &mut Invocation,
    budget: &mut Budget,
    trace_id: &str,
) -> (out: Vec<Event>)
    requires
        old(inv).wf(),
        old(inv).shares(old(budget)),
        old(inv).states().len() == graph.commands().len(),
    ensures
        final(inv).wf(),
        final(inv).shares(final(budget)),
        final(inv).same_plan(old(inv)),
        final(budget).others_as_in(old(budget), old(inv).id()),
        final(inv).held() == 0,
        final(inv).done() == old(inv).done(),
        final(inv).states() == cancelled_states(old(inv).states()),
        summaries(out@) == cancelled_summaries(
            graph.commands(),
            old(inv).states(),
            graph.commands().len() as int,
        ),
        forall|k: int| 0 <= k < out.len() ==> (#[trigger] out[k]).trace_id@ == trace_id@,
{
    let n = graph.len();
    let ghost begin = inv.states();
    let ghost cmds = graph.commands();
    let mut out: Vec<Event> = Vec::new();
    let mut i: usize = 0;
    assert(summaries(out@) =~= cancelled_summaries(cmds, begin, 0));
    while i < n
        invariant
            i <= n,
            n == cmds.len(),
            cmds == graph.commands(),
            begin == old(inv).states(),
            begin.len() == n,
            inv.wf(),
            inv.shares(budget),
            inv.same_plan(old(inv)),
            budget.others_as_in(old(budget), old(inv).id()),
            inv.done() == old(inv).done(),
            inv.states().len() == n,
            forall|j: int|
                0 <= j < n ==> (#[trigger] inv.states()[j]) == if j < i {
                    stopped(begin[j])
                } else {
                    begin[j]
                },
            summaries(out@) == cancelled_summaries(cmds, begin, i as int),
            forall|k: int| 0 <= k < out.len() ==> (#[trigger] out[k]).trace_id@ == trace_id@,
        decreases n - i,
    {
        let ghost before = out@;
        match inv.state_of(i) {
            NodeState::Running => {
                inv.command_finished(budget, i, Outcome::Cancelled);
                out.push(
                    Event::command_cancelled(
                        graph.command(i).name.clone(),
                        String::from_str(trace_id),
                    ),
                );
                assert(summaries(out@) =~= summaries(before).push(
                    EventSummary::Cancelled { command: cmds[i as int].name },
                ));
            },
            NodeState::Admitted => {
                inv.command_finished(budget, i, Outcome::ExecutorFailed);
            },
            _ => {},
        }
        i += 1;
    }
    proof {
        assert(inv.states() =~= cancelled_states(begin));
        assert forall|j: int| 0 <= j < n implies !(#[trigger] inv.states()[j]).holds() by {}
        lemma_held_bounds(inv.states(), inv.permits(), n as int);
    }
    out
}

} // verus!
