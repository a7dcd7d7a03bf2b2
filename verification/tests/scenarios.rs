use smelt::client_commands::{
    CfgLocal, ClientResp, ClientResponses, ConfigureSmelt, InitExecutor, ProfilerCfg,
};
use smelt::commands::{Command, CommandDependency, Runtime, TargetType};
use smelt::dag::topological_order;
use smelt::error::SmeltErr;
use smelt::events::{
    CommandVariant, Et, Event, InvokeVariant, SmeltErrorType,
};
use smelt::executed_tests::ExecutedTestResult;
use smelt::executor::common::{create_test_result, declared_outputs};
use smelt::graph::{
    check_unique_outputs_and_names, find_command, find_producer, get_command_deps, validate_graph,
    CommandGraph,
};
use smelt::paths::CommandDefPath;
use smelt::scheduler::{Budget, Invocation, NodeState, Outcome, Step};
use smelt::service::{
    cancel_running, eat_command, execute_commands, handle_result, run_tests, settle, Executor,
    ExecutorReport, Request, RunResults,
};
use smelt::utils::GitInfo;

fn cfg(job_slots: u64) -> ConfigureSmelt {
    ConfigureSmelt {
        smelt_root: "/work".to_string(),
        job_slots,
        silent: false,
        test_only: false,
        prof_cfg: Some(ProfilerCfg { prof_type: 0, sampling_period: 1000 }),
        init_executor: Some(InitExecutor::Local(CfgLocal {})),
    }
}

fn git() -> GitInfo {
    GitInfo { hash: String::new(), branch: String::new(), repo: String::new() }
}

fn command(name: &str, target_type: TargetType, script: &[&str], deps: &[&str]) -> Command {
    Command {
        name: name.to_string(),
        target_type,
        script: script.iter().map(|s| s.to_string()).collect(),
        dependent_files: vec![],
        dependencies: deps.iter().map(|d| CommandDependency(d.to_string())).collect(),
        outputs: vec![],
        runtime: Runtime {
            num_cpus: 1,
            max_memory_mb: 1024,
            timeout: 600,
            env: vec![],
            command_run_dir: None,
        },
        working_dir: ".".to_string(),
    }
}

/// Stands in for a shell: `echo X` writes `X`, `exit N` exits with N, and
/// nothing that a command declares as an output is ever made.
struct FakeShell {
    prepared: Vec<String>,
    ran: Vec<String>,
    broken: Vec<String>,
    no_workspace: Vec<String>,
}

impl FakeShell {
    fn new() -> Self {
        FakeShell { prepared: vec![], ran: vec![], broken: vec![], no_workspace: vec![] }
    }
}

impl Executor for FakeShell {
    fn prepare(
        &mut self,
        command: &Command,
        _trace_id: &str,
        _cfg: &ConfigureSmelt,
    ) -> Result<(), String> {
        if self.no_workspace.contains(&command.name) {
            return Err("no room on the disk".to_string());
        }
        self.prepared.push(command.name.clone());
        Ok(())
    }

    fn execute_commands(
        &mut self,
        command: &Command,
        _trace_id: &str,
        cfg: &ConfigureSmelt,
    ) -> ExecutorReport {
        self.ran.push(command.name.clone());
        if self.broken.contains(&command.name) {
            return ExecutorReport { lines: vec![], result: Err("no shell".to_string()) };
        }
        let mut lines = vec![];
        let mut exit_code = 0;
        for line in &command.script {
            if let Some(text) = line.strip_prefix("echo ") {
                lines.push(text.to_string());
            } else if let Some(code) = line.strip_prefix("exit ") {
                exit_code = code.parse().unwrap();
                break;
            }
        }
        let paths = declared_outputs(command, &cfg.smelt_root);
        let present = vec![false; paths.len()];
        let result = create_test_result(command, exit_code, &cfg.smelt_root, &paths, &present);
        ExecutorReport { lines, result: Ok(result) }
    }
}

fn graph_of(commands: Vec<Command>, job_slots: u64) -> (CommandGraph, Budget) {
    let mut graph = CommandGraph::new(cfg(job_slots));
    let mut budget = graph.budget();
    let answer = eat_command(&mut graph, &mut budget, Request::SetCommands(Ok(commands)), git());
    assert_eq!(answer.reply, Ok(ClientResp { client_responses: None }));
    assert!(answer.events.is_empty());
    assert!(answer.started.is_none());
    (graph, budget)
}

fn run(
    graph: &mut CommandGraph,
    budget: &mut Budget,
    request: Request,
    shell: &mut FakeShell,
) -> Vec<Event> {
    let answer = eat_command(graph, budget, request, git());
    assert_eq!(answer.reply, Ok(ClientResp { client_responses: None }));
    let mut events = answer.events;
    let tx = answer.started.expect("a transaction");
    assert!(budget.is_idle());
    run_tests(graph, tx, shell, budget, &mut events);
    assert!(budget.is_idle());
    events
}

fn describe(event: &Event) -> String {
    match event.et.as_ref().expect("a payload") {
        Et::Invoke(invoke) => match invoke.invoke_variant.as_ref().unwrap() {
            InvokeVariant::Start(_) => "Invoke.Start".to_string(),
            InvokeVariant::Done(_) => "Invoke.Done".to_string(),
            InvokeVariant::GraphSet(_) => "Invoke.Set".to_string(),
        },
        Et::Command(c) => match c.command_variant.as_ref().unwrap() {
            CommandVariant::Scheduled(_) => format!("Scheduled({})", c.command_ref),
            CommandVariant::Started(_) => format!("Started({})", c.command_ref),
            CommandVariant::Cancelled(_) => format!("Cancelled({})", c.command_ref),
            CommandVariant::Skipped(_) => format!("Skipped({})", c.command_ref),
            CommandVariant::Stdout(s) => format!("Stdout({},{})", c.command_ref, s.output),
            CommandVariant::Profile(_) => format!("Profile({})", c.command_ref),
            CommandVariant::Finished(f) => {
                format!("Finished({},{})", c.command_ref, f.outputs.as_ref().unwrap().exit_code)
            }
        },
        Et::Error(e) => format!("Error({:?},{})", e.sig, e.error_payload),
    }
}

fn described(events: &[Event]) -> Vec<String> {
    events.iter().map(describe).collect()
}

#[test]
fn single_isolated_command() {
    let (mut graph, mut budget) = graph_of(vec![command("a", TargetType::Test, &["echo hi"], &[])], 4);
    let mut shell = FakeShell::new();
    let events = run(&mut graph, &mut budget, Request::RunOne("a".to_string()), &mut shell);
    assert_eq!(
        described(&events),
        vec!["Invoke.Start", "Started(a)", "Stdout(a,hi)", "Finished(a,0)", "Invoke.Done"]
    );
    let trace = events[0].trace_id.clone();
    assert_eq!(trace.len(), 36);
    assert!(events.iter().all(|e| e.trace_id == trace));
    assert!(events.iter().all(|e| e.time.is_some()));
}

#[test]
fn linear_dependency_passes() {
    let (mut graph, mut budget) = graph_of(
        vec![
            command("a", TargetType::Test, &["echo one"], &[]),
            command("b", TargetType::Test, &["echo two"], &["a"]),
        ],
        4,
    );
    let mut shell = FakeShell::new();
    let events = run(&mut graph, &mut budget, Request::RunOne("b".to_string()), &mut shell);
    assert_eq!(
        described(&events),
        vec![
            "Invoke.Start",
            "Started(a)",
            "Stdout(a,one)",
            "Finished(a,0)",
            "Started(b)",
            "Stdout(b,two)",
            "Finished(b,0)",
            "Invoke.Done",
        ]
    );
    assert_eq!(shell.ran, vec!["a", "b"]);
}

#[test]
fn failed_build_skips_dependent_test() {
    let (mut graph, mut budget) = graph_of(
        vec![
            command("build_x", TargetType::Build, &["exit 3"], &[]),
            command("test_x", TargetType::Test, &["echo never"], &["build_x"]),
        ],
        4,
    );
    let mut shell = FakeShell::new();
    let events = run(&mut graph, &mut budget, Request::RunType("test".to_string()), &mut shell);
    assert_eq!(
        described(&events),
        vec![
            "Invoke.Start",
            "Started(build_x)",
            "Finished(build_x,3)",
            "Skipped(test_x)",
            "Invoke.Done",
        ]
    );
    assert_eq!(shell.ran, vec!["build_x"]);
}

#[test]
fn diamond_dedup() {
    let (mut graph, mut budget) = graph_of(
        vec![
            command("a", TargetType::Build, &["echo a"], &[]),
            command("b", TargetType::Build, &["echo b"], &["a"]),
            command("c", TargetType::Build, &["echo c"], &["a"]),
            command("d", TargetType::Test, &["echo d"], &["b", "c"]),
        ],
        4,
    );
    let mut shell = FakeShell::new();
    let events = run(&mut graph, &mut budget, Request::RunOne("d".to_string()), &mut shell);
    let seen = described(&events);
    assert_eq!(seen.iter().filter(|e| *e == "Started(a)").count(), 1);
    assert_eq!(seen.iter().filter(|e| *e == "Finished(a,0)").count(), 1);
    assert_eq!(shell.ran, vec!["a", "b", "c", "d"]);
    assert_eq!(seen.first().unwrap(), "Invoke.Start");
    assert_eq!(seen.last().unwrap(), "Invoke.Done");
    assert_eq!(seen.iter().filter(|e| *e == "Invoke.Done").count(), 1);
}

#[test]
fn cycle_rejected() {
    let mut graph = CommandGraph::new(cfg(4));
    let mut budget = graph.budget();
    let commands = vec![
        command("a", TargetType::Test, &["echo a"], &["b"]),
        command("b", TargetType::Test, &["echo b"], &["a"]),
    ];
    let answer = eat_command(&mut graph, &mut budget, Request::SetCommands(Ok(commands)), git());
    assert_eq!(
        answer.reply,
        Err("Setting commands failed; reason is cyclic dependencies found".to_string())
    );
    assert!(answer.started.is_none());
    assert!(answer.events.is_empty());
    assert_eq!(graph.len(), 0);
    let run = eat_command(&mut graph, &mut budget, Request::RunOne("a".to_string()), git());
    assert!(run.reply.is_err());
    assert!(run.started.is_none());
}

#[test]
fn self_dependency_rejected() {
    let mut graph = CommandGraph::new(cfg(4));
    let mut budget = graph.budget();
    let out = graph.set_commands(vec![command("a", TargetType::Test, &["echo a"], &["a"])]);
    match out {
        Err(SmeltErr::CommandSettingFailed { reason }) => {
            assert_eq!(reason, "cyclic dependencies found")
        }
        other => panic!("unexpected {:?}", other),
    }
}

#[test]
fn missing_declared_output() {
    let mut with_output = command("a", TargetType::Test, &["echo hi"], &[]);
    with_output.outputs = vec![CommandDefPath("out.txt".to_string())];
    let (mut graph, mut budget) = graph_of(vec![with_output], 4);
    let mut shell = FakeShell::new();
    let answer = eat_command(&mut graph, &mut budget, Request::RunOne("a".to_string()), git());
    let tx = answer.started.unwrap();
    let mut events = answer.events;
    let (invocation, results) =
        execute_commands(&graph, tx.run, &mut shell, &mut budget, &tx.trace_id, &mut events);
    assert!(invocation.is_done());
    assert_eq!(invocation.state_of(0), NodeState::Completed { exit_code: 0 });
    assert_eq!(
        described(&events),
        vec!["Invoke.Start", "Started(a)", "Stdout(a,hi)", "Finished(a,0)", "Invoke.Done"]
    );
    assert_eq!(results.len(), 1);
    match &results[0] {
        Ok(ExecutedTestResult::MissingFiles { test_result, missing_artifacts }) => {
            assert_eq!(test_result.outputs.as_ref().unwrap().exit_code, 0);
            assert_eq!(missing_artifacts.len(), 1);
            assert_eq!(missing_artifacts[0].artifact_name, "out.txt");
        }
        other => panic!("unexpected {:?}", other),
    }
}

#[test]
fn executor_failure_skips_dependents_and_is_reported() {
    let (mut graph, mut budget) = graph_of(
        vec![
            command("a", TargetType::Build, &["echo a"], &[]),
            command("b", TargetType::Test, &["echo b"], &["a"]),
            command("c", TargetType::Test, &["echo c"], &["b"]),
        ],
        4,
    );
    let mut shell = FakeShell::new();
    shell.broken.push("a".to_string());
    let events = run(
        &mut graph,
        &mut budget,
        Request::RunMany(vec!["c".to_string(), "a".to_string()]),
        &mut shell,
    );
    assert_eq!(
        described(&events),
        vec![
            "Invoke.Start",
            "Started(a)",
            "Skipped(b)",
            "Skipped(c)",
            "Error(InternalError,Executor failed to execute with error : no shell)",
            "Invoke.Done",
        ]
    );
    assert_eq!(shell.prepared, vec!["a"]);
    assert_eq!(shell.ran, vec!["a"]);
}

#[test]
fn silent_engine_sends_no_output() {
    let mut config = cfg(4);
    config.silent = true;
    let mut graph = CommandGraph::new(config);
    let mut budget = graph.budget();
    graph.set_commands(vec![command("a", TargetType::Test, &["echo hi"], &[])]).unwrap();
    let mut shell = FakeShell::new();
    let events = run(&mut graph, &mut budget, Request::RunOne("a".to_string()), &mut shell);
    assert_eq!(
        described(&events),
        vec!["Invoke.Start", "Started(a)", "Finished(a,0)", "Invoke.Done"]
    );
}

#[test]
fn graph_dependency_less_exec() {
    let (mut graph, mut budget) = graph_of(
        vec![
            command("test_1", TargetType::Test, &["echo one"], &[]),
            command("test_2", TargetType::Test, &["echo two"], &[]),
            command("test_3", TargetType::Test, &["echo three"], &[]),
        ],
        1,
    );
    let mut shell = FakeShell::new();
    let events = run(&mut graph, &mut budget, Request::RunType("test".to_string()), &mut shell);
    let mut finished = 0;
    for event in &events {
        if let Some(Et::Command(val)) = &event.et {
            if let Some(passed) = val.passed() {
                assert!(passed);
                finished += 1;
            }
        }
    }
    assert_eq!(finished, 3);
}

#[test]
fn graph_test_with_deps() {
    let (mut graph, mut budget) = graph_of(
        vec![
            command("build_1", TargetType::Build, &["echo build"], &[]),
            command("stim_1", TargetType::Stimulus, &["echo stim"], &["build_1"]),
            command("test_1", TargetType::Test, &["echo test"], &["//lists/cl2:stim_1"]),
        ],
        1,
    );
    let mut shell = FakeShell::new();
    let events = run(&mut graph, &mut budget, Request::RunType("test".to_string()), &mut shell);
    let mut finished = 0;
    for event in &events {
        if let Some(Et::Command(val)) = &event.et {
            if let Some(passed) = val.passed() {
                assert!(passed);
                finished += 1;
            }
        }
    }
    assert_eq!(finished, 3);
    assert_eq!(shell.ran, vec!["build_1", "stim_1", "test_1"]);
}

#[test]
fn graph_test_with_intraphase_deps() {
    let mut first = command("test_1", TargetType::Test, &["echo one"], &[]);
    first.outputs = vec![CommandDefPath("$SMELT_ROOT/one.log".to_string())];
    let mut second = command("test_2", TargetType::Test, &["echo two"], &[]);
    second.dependent_files = vec![CommandDefPath("$SMELT_ROOT/one.log".to_string())];
    let third = command("test_3", TargetType::Test, &["echo three"], &["test_2"]);
    let (mut graph, mut budget) = graph_of(vec![third, second, first], 1);
    let mut shell = FakeShell::new();
    let events = run(&mut graph, &mut budget, Request::RunType("test".to_string()), &mut shell);
    for event in &events {
        if let Some(Et::Command(val)) = &event.et {
            if let Some(passed) = val.passed() {
                assert!(passed);
            }
        }
    }
    assert_eq!(shell.ran, vec!["test_1", "test_2", "test_3"]);
    assert_eq!(described(&events).last().unwrap(), "Invoke.Done");
}

#[test]
fn duplicate_name_is_refused_in_the_reply_alone() {
    let mut graph = CommandGraph::new(cfg(4));
    let mut budget = graph.budget();
    let commands = vec![
        command("a", TargetType::Test, &[], &["nowhere"]),
        command("a", TargetType::Test, &[], &[]),
    ];
    let answer = eat_command(&mut graph, &mut budget, Request::SetCommands(Ok(commands)), git());
    assert_eq!(answer.reply, Err("Two commands with the same name a where declared".to_string()));
    assert!(answer.events.is_empty());
}

#[test]
fn duplicate_output_is_refused() {
    let mut one = command("a", TargetType::Test, &[], &[]);
    one.outputs = vec![CommandDefPath("x".to_string()), CommandDefPath("y".to_string())];
    let mut two = command("b", TargetType::Test, &[], &[]);
    two.outputs = vec![CommandDefPath("z".to_string()), CommandDefPath("y".to_string())];
    match check_unique_outputs_and_names(&vec![one, two]) {
        Err(SmeltErr::DuplicateOutput { output }) => assert_eq!(output.0, "y"),
        other => panic!("unexpected {:?}", other),
    }
    let mut twice = command("c", TargetType::Test, &[], &[]);
    twice.outputs = vec![CommandDefPath("x".to_string()), CommandDefPath("x".to_string())];
    match check_unique_outputs_and_names(&vec![twice]) {
        Err(SmeltErr::DuplicateOutput { output }) => assert_eq!(output.0, "x"),
        other => panic!("unexpected {:?}", other),
    }
}

#[test]
fn name_is_checked_before_outputs() {
    let mut one = command("a", TargetType::Test, &[], &[]);
    one.outputs = vec![CommandDefPath("x".to_string())];
    let mut two = command("a", TargetType::Test, &[], &[]);
    two.outputs = vec![CommandDefPath("x".to_string())];
    match check_unique_outputs_and_names(&vec![one, two]) {
        Err(SmeltErr::DuplicateCommandName { name }) => assert_eq!(name, "a"),
        other => panic!("unexpected {:?}", other),
    }
}

#[test]
fn missing_references_are_counted_and_reported() {
    let mut graph = CommandGraph::new(cfg(4));
    let mut budget = graph.budget();
    let mut a = command("a", TargetType::Test, &[], &["ghost", "b", "//x:phantom"]);
    a.dependent_files = vec![CommandDefPath("nowhere.txt".to_string())];
    let b = command("b", TargetType::Test, &[], &[]);
    let answer = eat_command(&mut graph, &mut budget, Request::SetCommands(Ok(vec![a, b])), git());
    assert_eq!(
        answer.reply,
        Err("Setting commands failed; reason is 3 invalid dependencies found".to_string())
    );
    assert_eq!(answer.events.len(), 3);
    let payloads: Vec<String> = answer
        .events
        .iter()
        .map(|e| match e.et.as_ref().unwrap() {
            Et::Error(err) => {
                assert_eq!(err.sig, SmeltErrorType::ValidateError);
                err.error_payload.clone()
            }
            other => panic!("unexpected {:?}", other),
        })
        .collect();
    assert_eq!(
        payloads,
        vec![
            "Dependency for a command named ghost was found, but no such command was declared",
            "Dependency for a command named phantom was found, but no such command was declared",
            "Dependency for a command named nowhere.txt was found, but no such command was declared",
        ]
    );
    assert!(answer.events.iter().all(|e| e.trace_id == "VALIDATE_ERROR"));
    assert_eq!(graph.len(), 0);
}

#[test]
fn a_refused_set_leaves_the_old_one() {
    let (mut graph, mut budget) = graph_of(vec![command("keep", TargetType::Test, &[], &[])], 4);
    let out = graph.set_commands(vec![command("a", TargetType::Test, &[], &["ghost"])]);
    assert!(out.is_err());
    assert_eq!(graph.len(), 1);
    assert_eq!(graph.command(0).name, "keep");
}

#[test]
fn unreadable_command_list() {
    let mut graph = CommandGraph::new(cfg(4));
    let mut budget = graph.budget();
    let answer =
        eat_command(&mut graph, &mut budget, Request::SetCommands(Err("bad yaml".to_string())), git());
    assert_eq!(answer.reply, Err("Serde yaml error bad yaml".to_string()));
    assert!(answer.events.is_empty());
}

#[test]
fn unknown_names_and_types_fail_the_request() {
    let (mut graph, mut budget) = graph_of(vec![command("a", TargetType::Test, &[], &[])], 4);
    let one = eat_command(&mut graph, &mut budget, Request::RunOne("b".to_string()), git());
    assert_eq!(
        one.reply,
        Err("Dependency for a command named b was found, but no such command was declared"
            .to_string())
    );
    assert!(one.started.is_none() && one.events.is_empty());
    let many = eat_command(
        &mut graph,
        &mut budget,
        Request::RunMany(vec!["a".to_string(), "c".to_string(), "d".to_string()]),
        git(),
    );
    assert_eq!(
        many.reply,
        Err("Dependency for a command named c was found, but no such command was declared"
            .to_string())
    );
    let typed = eat_command(&mut graph, &mut budget, Request::RunType("lint".to_string()), git());
    assert_eq!(typed.reply, Err("Invalid target type lint".to_string()));
    let shouted = eat_command(&mut graph, &mut budget, Request::RunType("TEST".to_string()), git());
    assert!(shouted.reply.is_ok());
    assert_eq!(shouted.started.unwrap().run.targets, vec![0]);
}

#[test]
fn get_config_hands_the_configuration_back() {
    let mut graph = CommandGraph::new(cfg(7));
    let mut budget = graph.budget();
    let answer = eat_command(&mut graph, &mut budget, Request::GetConfig, git());
    assert_eq!(
        answer.reply,
        Ok(ClientResp { client_responses: Some(ClientResponses::CurrentCfg(cfg(7))) })
    );
    assert!(answer.events.is_empty() && answer.started.is_none());
}

#[test]
fn lookups_find_the_first_match() {
    let mut a = command("a", TargetType::Test, &[], &[]);
    a.outputs = vec![CommandDefPath("x".to_string())];
    let mut b = command("b", TargetType::Test, &[], &["a", "zz"]);
    b.dependent_files = vec![CommandDefPath("x".to_string()), CommandDefPath("q".to_string())];
    let commands = vec![a, b];
    assert_eq!(find_command(&commands, "b"), Some(1));
    assert_eq!(find_command(&commands, "c"), None);
    assert_eq!(find_producer(&commands, "x"), Some(0));
    assert_eq!(find_producer(&commands, "y"), None);
    let refs = get_command_deps(&commands, 1);
    assert_eq!(refs.len(), 4);
    assert!(matches!(refs[0], Ok(0)));
    assert!(matches!(&refs[1], Err(SmeltErr::MissingCommandDependency { missing_dep_name }) if missing_dep_name == "zz"));
    assert!(matches!(refs[2], Ok(0)));
    assert!(matches!(&refs[3], Err(SmeltErr::MissingFileDependency { missing_file_name }) if missing_file_name == "q"));
    match validate_graph(&commands) {
        Err(errors) => assert_eq!(errors.len(), 2),
        Ok(_) => panic!("two references lead nowhere"),
    }
}

#[test]
fn topological_order_puts_dependencies_first() {
    let edges = vec![vec![1, 2], vec![2], vec![], vec![0]];
    let (order, rank) = topological_order(&edges).expect("no cycle");
    assert_eq!(order, vec![2, 1, 0, 3]);
    assert_eq!(rank, vec![2, 1, 0, 3]);
    assert!(topological_order(&vec![vec![1], vec![2], vec![0]]).is_none());
    assert!(topological_order(&vec![vec![0]]).is_none());
    assert_eq!(topological_order(&vec![]), Some((vec![], vec![])));
}

fn plan(
    edges: Vec<Vec<usize>>,
    permits: Vec<u64>,
    budget: &mut Budget,
    targets: Vec<usize>,
) -> Invocation {
    let (order, rank) = topological_order(&edges).expect("no cycle");
    Invocation::new(edges, &order, &rank, permits, budget, &targets)
}

#[test]
fn only_what_is_asked_for_is_scheduled() {
    let mut budget = Budget::new(2);
    let inv = plan(vec![vec![], vec![0], vec![], vec![2]], vec![1, 1, 1, 1], &mut budget, vec![1]);
    assert_eq!(inv.len(), 4);
    assert_eq!(inv.state_of(0), NodeState::Scheduled);
    assert_eq!(inv.state_of(1), NodeState::Scheduled);
    assert_eq!(inv.state_of(2), NodeState::Idle);
    assert_eq!(inv.state_of(3), NodeState::Idle);
    assert_eq!(budget.available_slots(), 2);
    assert_eq!(budget.slots(), 2);
    assert!(!inv.is_done());
}

#[test]
fn admission_keeps_within_the_budget() {
    // three independent commands wanting 2, 2 and 1 permits out of 3
    let mut budget = Budget::new(3);
    let mut inv = plan(vec![vec![], vec![], vec![]], vec![2, 2, 1], &mut budget, vec![0, 1, 2]);
    assert_eq!(inv.next_step(&mut budget), Step::Start { command: 0 });
    assert_eq!(inv.state_of(0), NodeState::Admitted);
    assert_eq!(budget.available_slots(), 1);
    // the second does not fit, the third does
    assert_eq!(inv.next_step(&mut budget), Step::Start { command: 2 });
    assert_eq!(budget.available_slots(), 0);
    assert_eq!(inv.next_step(&mut budget), Step::Wait);
    // nothing is emitted for a command before its workspace stands
    assert!(!inv.record_output(0));
    inv.command_started(0);
    assert_eq!(inv.state_of(0), NodeState::Running);
    assert!(inv.record_output(0));
    assert!(!inv.record_output(1));
    inv.command_finished(&mut budget, 0, Outcome::Exited { exit_code: 0 });
    assert_eq!(budget.available_slots(), 2);
    assert_eq!(inv.next_step(&mut budget), Step::Start { command: 1 });
    assert_eq!(inv.next_step(&mut budget), Step::Wait);
    inv.command_started(2);
    inv.command_finished(&mut budget, 2, Outcome::Exited { exit_code: 0 });
    inv.command_started(1);
    inv.command_finished(&mut budget, 1, Outcome::ExecutorFailed);
    assert_eq!(budget.available_slots(), 3);
    assert!(budget.is_idle());
    assert_eq!(inv.next_step(&mut budget), Step::Finish);
    assert!(inv.is_done());
    assert_eq!(inv.state_of(1), NodeState::Failed { started: true });
    assert!(!inv.record_output(0));
}

#[test]
fn a_failed_workspace_ends_the_command_without_a_start() {
    let mut budget = Budget::new(1);
    let mut inv = plan(vec![vec![], vec![0]], vec![1, 1], &mut budget, vec![1]);
    assert_eq!(inv.next_step(&mut budget), Step::Start { command: 0 });
    assert_eq!(budget.available_slots(), 0);
    inv.command_finished(&mut budget, 0, Outcome::ExecutorFailed);
    assert_eq!(inv.state_of(0), NodeState::Failed { started: false });
    assert_eq!(budget.available_slots(), 1);
    assert_eq!(inv.next_step(&mut budget), Step::Skip { command: 1 });
    assert_eq!(inv.next_step(&mut budget), Step::Finish);
}

#[test]
fn invocations_share_one_budget() {
    // an engine with one job slot and one command that takes it
    let mut budget = Budget::new(1);
    let mut first = plan(vec![vec![]], vec![1], &mut budget, vec![0]);
    let mut second = plan(vec![vec![]], vec![1], &mut budget, vec![0]);
    assert_eq!(first.next_step(&mut budget), Step::Start { command: 0 });
    assert_eq!(budget.available_slots(), 0);
    // the second invocation has to wait although nothing of its own runs
    assert_eq!(second.next_step(&mut budget), Step::Wait);
    assert_eq!(second.state_of(0), NodeState::Scheduled);
    first.command_started(0);
    assert_eq!(second.next_step(&mut budget), Step::Wait);
    first.command_finished(&mut budget, 0, Outcome::Exited { exit_code: 0 });
    assert_eq!(first.next_step(&mut budget), Step::Finish);
    assert_eq!(second.next_step(&mut budget), Step::Start { command: 0 });
    assert_eq!(first.state_of(0), NodeState::Completed { exit_code: 0 });
    assert_eq!(budget.available_slots(), 0);
    second.command_started(0);
    second.command_finished(&mut budget, 0, Outcome::Exited { exit_code: 1 });
    assert_eq!(second.next_step(&mut budget), Step::Finish);
    assert!(budget.is_idle());
}

#[test]
fn skips_spread_down_the_graph() {
    // 0 <- 1 <- 2, and 3 on its own
    let mut budget = Budget::new(4);
    let mut inv =
        plan(vec![vec![], vec![0], vec![1], vec![]], vec![1, 1, 1, 1], &mut budget, vec![2, 3]);
    assert_eq!(inv.next_step(&mut budget), Step::Start { command: 0 });
    assert_eq!(inv.next_step(&mut budget), Step::Start { command: 3 });
    assert_eq!(inv.next_step(&mut budget), Step::Wait);
    inv.command_started(0);
    inv.command_finished(&mut budget, 0, Outcome::Exited { exit_code: 2 });
    assert_eq!(inv.next_step(&mut budget), Step::Skip { command: 1 });
    assert_eq!(inv.next_step(&mut budget), Step::Skip { command: 2 });
    assert_eq!(inv.next_step(&mut budget), Step::Wait);
    inv.command_started(3);
    inv.command_finished(&mut budget, 3, Outcome::Exited { exit_code: 0 });
    assert_eq!(inv.next_step(&mut budget), Step::Finish);
    assert_eq!(inv.state_of(0), NodeState::Completed { exit_code: 2 });
    assert_eq!(inv.state_of(1), NodeState::Skipped);
    assert_eq!(inv.state_of(2), NodeState::Skipped);
    assert_eq!(inv.state_of(3), NodeState::Completed { exit_code: 0 });
    assert!(NodeState::Skipped.is_failing());
    assert!(NodeState::Failed { started: false }.is_failing());
    assert!(NodeState::Completed { exit_code: 0 }.has_passed());
    assert!(!NodeState::Completed { exit_code: 1 }.has_passed());
    assert!(!NodeState::Running.is_terminal());
    assert!(NodeState::Admitted.holds_permits() && NodeState::Running.holds_permits());
    assert!(!NodeState::Scheduled.holds_permits());
}

#[test]
fn permits_never_exceed_the_job_slots() {
    let mut hungry = command("a", TargetType::Test, &["echo a"], &[]);
    hungry.runtime.num_cpus = 64;
    let (mut graph, mut budget) = graph_of(vec![hungry, command("b", TargetType::Test, &[], &[])], 2);
    let answer = eat_command(&mut graph, &mut budget, Request::RunType("test".to_string()), git());
    let mut tx = answer.started.unwrap();
    assert_eq!(tx.run.targets, vec![0, 1]);
    assert_eq!(tx.run.invocation.next_step(&mut budget), Step::Start { command: 0 });
    assert_eq!(budget.available_slots(), 0);
    assert_eq!(tx.run.invocation.next_step(&mut budget), Step::Wait);
}

#[test]
fn settle_takes_a_report_down() {
    let a = command("a", TargetType::Test, &[], &[]);
    let result = create_test_result(&a, 5, "/work", &vec![], &vec![]);
    let report = ExecutorReport {
        lines: vec!["x".to_string(), "y".to_string()],
        result: Ok(result.clone()),
    };
    let settled = settle(&a, "trace", false, report);
    assert_eq!(described(&settled.events), vec!["Stdout(a,x)", "Stdout(a,y)", "Finished(a,5)"]);
    assert_eq!(settled.outcome, Outcome::Exited { exit_code: 5 });
    assert!(matches!(settled.result, Ok(r) if r == result));
    let skipped = settle(
        &a,
        "trace",
        false,
        ExecutorReport { lines: vec![], result: Ok(ExecutedTestResult::Skipped) },
    );
    assert_eq!(skipped.outcome, Outcome::ExecutorFailed);
    assert!(skipped.events.is_empty());
    assert!(matches!(skipped.result, Err(SmeltErr::ExecutorFailed(cause)) if cause == "the executor returned no outputs"));
}

#[test]
fn handle_result_reports_errors_and_ends() {
    let results = vec![
        Ok(ExecutedTestResult::Skipped),
        Err(SmeltErr::ExecutorFailed("boom".to_string())),
        Err(SmeltErr::Unknown),
    ];
    let events = handle_result(&results, "t1");
    assert_eq!(
        described(&events),
        vec![
            "Error(InternalError,Executor failed to execute with error : boom)",
            "Error(InternalError,unknown error)",
            "Invoke.Done",
        ]
    );
    assert!(events.iter().all(|e| e.trace_id == "t1"));
    assert!(events[2].finished_event());
    assert!(!events[0].finished_event());
}

#[test]
fn cancelling_stops_what_runs_and_skips_what_waits() {
    let (mut graph, mut budget) = graph_of(
        vec![
            command("a", TargetType::Build, &["echo a"], &[]),
            command("b", TargetType::Test, &["echo b"], &["a"]),
            command("c", TargetType::Test, &["echo c"], &[]),
            command("d", TargetType::Test, &["echo d"], &[]),
        ],
        2,
    );
    let answer =
        eat_command(&mut graph, &mut budget, Request::RunType("test".to_string()), git());
    let mut tx = answer.started.unwrap();
    let inv = &mut tx.run.invocation;
    assert_eq!(inv.next_step(&mut budget), Step::Start { command: 0 });
    assert_eq!(inv.next_step(&mut budget), Step::Start { command: 2 });
    assert_eq!(inv.next_step(&mut budget), Step::Wait);
    inv.command_started(0);
    // a runs, the workspace of c is still being prepared
    let events = cancel_running(&graph, inv, &mut budget, "t");
    assert_eq!(described(&events), vec!["Cancelled(a)"]);
    assert_eq!(inv.state_of(0), NodeState::Cancelled);
    assert_eq!(inv.state_of(2), NodeState::Failed { started: false });
    assert!(budget.is_idle());
    assert!(NodeState::Cancelled.is_failing());
    assert_eq!(inv.next_step(&mut budget), Step::Skip { command: 1 });
    assert_eq!(inv.next_step(&mut budget), Step::Start { command: 3 });
    assert!(cancel_running(&graph, inv, &mut budget, "t").is_empty());
    assert_eq!(inv.state_of(3), NodeState::Failed { started: false });
    assert_eq!(inv.next_step(&mut budget), Step::Finish);
    assert!(cancel_running(&graph, inv, &mut budget, "t").is_empty());
}

#[test]
fn no_start_is_sent_when_the_workspace_cannot_be_prepared() {
    let (mut graph, mut budget) = graph_of(
        vec![
            command("a", TargetType::Build, &["echo a"], &[]),
            command("b", TargetType::Test, &["echo b"], &["a"]),
        ],
        4,
    );
    let mut shell = FakeShell::new();
    shell.no_workspace.push("a".to_string());
    let events = run(
        &mut graph,
        &mut budget,
        Request::RunMany(vec!["a".to_string(), "b".to_string()]),
        &mut shell,
    );
    assert_eq!(
        described(&events),
        vec![
            "Invoke.Start",
            "Skipped(b)",
            "Error(InternalError,Executor failed to execute with error : no room on the disk)",
            "Invoke.Done",
        ]
    );
    assert!(shell.prepared.is_empty());
    assert!(shell.ran.is_empty());
}

#[test]
fn overlapping_requests_take_from_one_budget() {
    let (mut graph, mut budget) =
        graph_of(vec![command("a", TargetType::Test, &["echo a"], &[])], 1);
    let one = eat_command(&mut graph, &mut budget, Request::RunOne("a".to_string()), git());
    let two = eat_command(&mut graph, &mut budget, Request::RunOne("a".to_string()), git());
    let mut first = one.started.unwrap().run.invocation;
    let mut second = two.started.unwrap().run.invocation;
    assert_eq!(first.next_step(&mut budget), Step::Start { command: 0 });
    assert_eq!(second.next_step(&mut budget), Step::Wait);
    assert_eq!(second.state_of(0), NodeState::Scheduled);
    first.command_started(0);
    first.command_finished(&mut budget, 0, Outcome::Exited { exit_code: 0 });
    assert_eq!(second.next_step(&mut budget), Step::Start { command: 0 });
}

#[test]
fn the_finished_event_carries_the_outputs_that_are_there() {
    let mut with_outputs = command("a", TargetType::Test, &["echo hi"], &[]);
    with_outputs.outputs = vec![CommandDefPath("out.txt".to_string())];
    let result = create_test_result(
        &with_outputs,
        0,
        "/work",
        &vec!["/work/out.txt".to_string()],
        &vec![false],
    );
    let settled = settle(
        &with_outputs,
        "t",
        true,
        ExecutorReport { lines: vec!["hi".to_string()], result: Ok(result) },
    );
    assert_eq!(settled.events.len(), 1);
    match settled.events[0].et.as_ref().unwrap() {
        Et::Command(c) => match c.command_variant.as_ref().unwrap() {
            CommandVariant::Finished(finished) => {
                let outputs = finished.outputs.as_ref().unwrap();
                assert_eq!(outputs.exit_code, 0);
                let names: Vec<&str> =
                    outputs.artifacts.iter().map(|a| a.artifact_name.as_str()).collect();
                assert_eq!(names, vec!["smelt_log"]);
            }
            other => panic!("unexpected {:?}", other),
        },
        other => panic!("unexpected {:?}", other),
    }
}

#[test]
fn the_start_event_carries_the_root_and_the_revision() {
    let (mut graph, mut budget) =
        graph_of(vec![command("a", TargetType::Test, &["echo a"], &[])], 1);
    let revision =
        GitInfo { hash: "abc".to_string(), branch: "main".to_string(), repo: "r".to_string() };
    let answer =
        eat_command(&mut graph, &mut budget, Request::RunOne("a".to_string()), revision);
    assert_eq!(answer.events.len(), 1);
    assert_eq!(answer.events[0].trace_id, answer.started.as_ref().unwrap().trace_id);
    match answer.events[0].et.as_ref().unwrap() {
        Et::Invoke(invoke) => match invoke.invoke_variant.as_ref().unwrap() {
            InvokeVariant::Start(start) => {
                assert_eq!(start.smelt_root, "/work");
                assert_eq!(start.git_hash, "abc");
                assert_eq!(start.git_branch, "main");
                assert_eq!(start.git_repo, "r");
            }
            other => panic!("unexpected {:?}", other),
        },
        other => panic!("unexpected {:?}", other),
    }
}

#[test]
fn a_request_without_a_command_is_refused() {
    let (mut graph, mut budget) = graph_of(vec![], 1);
    let answer = eat_command(&mut graph, &mut budget, Request::Empty, git());
    assert_eq!(answer.reply, Err("a request without a command".to_string()));
    assert!(answer.started.is_none());
    assert_eq!(described(&answer.events), vec!["Error(ClientError,a request without a command)"]);
    assert_eq!(answer.events[0].trace_id, "CLIENT_ERROR");
}

#[test]
fn results_are_kept_for_every_target() {
    let mut results = RunResults::new(3);
    results.record(1, Err(SmeltErr::Unknown));
    results.record(2, Ok(ExecutedTestResult::Skipped));
    let out = results.for_targets(&vec![1, 0, 1, 2]);
    assert_eq!(out.len(), 4);
    assert!(matches!(out[0], Err(SmeltErr::Unknown)));
    assert!(matches!(out[1], Ok(ExecutedTestResult::Skipped)));
    assert!(matches!(out[2], Err(SmeltErr::Unknown)));
    assert!(matches!(out[3], Ok(ExecutedTestResult::Skipped)));
}
