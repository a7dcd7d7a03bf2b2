use smelt::client_commands::{
    CfgDocker, ClientCommand, ClientCommands, ConfigureSmelt, GetConfig, ProfilerCfg,
    ProfilingSelection, RunMany, RunMode, RunOne, RunType, SetCommands, Ulimit,
};
use smelt::commands::{Command, CommandDependency, Runtime, TargetType};
use smelt::digest::{CommandDefDigest, DigestError};
use smelt::error::SmeltErr;
use smelt::events::{
    new_command_event, new_invoke_event, output_asfile, AllCommandsDone, CommandEvent,
    CommandFinished, CommandProfile, CommandStarted, CommandVariant, CpuLoad, Et, Event,
    InvokeEvent, InvokeVariant, SmeltError, SmeltErrorType, Timestamp,
};
use smelt::executed_tests::{
    ArtifactPointer, ExecutedTestResult, Pointer, TestOutputs, TestResult,
};
use smelt::executor::common::{
    create_test_result, declared_outputs, get_target_root, handle_line, prepare_workspace,
};
use smelt::executor::docker::{
    container_name, fresh_container_name, log_line, DockerExecutor, LogOutput, WaitOutcome,
};
use smelt::executor::local::{
    exit_code_or_sentinel, shell_invocation, ExecutorErr, LocalExecutor, LocalExecutorBuilder,
    PumpAction, PumpInput, PumpState,
};
use smelt::executor::profiler::{
    docker_profile_event, docker_stats_event_at, docker_stats_to_event, profile_event,
    sample_memory_and_load, MemoryStatsStats, ProcessUsage, SampleStruct, Stats, Timebase,
};
use smelt::graph::{CommandRef, LookupCommand, LookupFileMaker, QueryCommandRef};
use smelt::paths::{
    file_name, join_path, path_is_absolute, replace_smelt_root, resolve_substituted,
    CommandDefPath, SmeltPath,
};
use smelt::runtime_support::{
    GetJobSlots, GetProfilingFreq, GetSmeltCfg, GetSmeltRoot, GetTraceId, GlobalData,
    GlobalDataBuilder, InvocationData, SetSemaphore, SetSmeltCfg, SetTraceId,
};
use smelt::text::{
    append_lines, chars_of, decimal_string, find_char, join, same_text,
    signed_decimal_string, starts_with, text_less,
};
use smelt::tracker::{
    ExecCommand, ExecCommandState, InvocationState, InvocationTrackerError,
    RunningInvocationTracker, SingleInvocationTracker, Subscriber,
};
use smelt::utils::{exec_info, execution_start, invoke_start_message, GitInfo};

fn command(name: &str) -> Command {
    Command {
        name: name.to_string(),
        target_type: TargetType::Test,
        script: vec!["echo hi".to_string(), "exit 0".to_string()],
        dependent_files: vec![],
        dependencies: vec![],
        outputs: vec![],
        runtime: Runtime {
            num_cpus: 2,
            max_memory_mb: 10,
            timeout: 5,
            env: vec![("A".to_string(), "1".to_string()), ("B".to_string(), "two".to_string())],
            command_run_dir: None,
        },
        working_dir: "/repo/pkg".to_string(),
    }
}

#[test]
fn text_helpers() {
    assert_eq!(chars_of("aé"), vec!['a', 'é']);
    assert!(starts_with("//a:b", "//"));
    assert!(!starts_with("/", "//"));
    assert!(starts_with("abc", ""));
    assert_eq!(find_char("a:b:c", ':'), Some(1));
    assert_eq!(find_char("abc", ':'), None);
    assert_eq!(smelt::text::concat("ab", "cd"), "abcd");
    assert_eq!(join(&vec!["a".to_string(), "b".to_string(), "c".to_string()], " && "), "a && b && c");
    assert_eq!(join(&vec!["a".to_string()], ", "), "a");
    assert_eq!(join(&vec![], ", "), "");
    let mut out = "x".to_string();
    append_lines(&mut out, &vec!["1".to_string(), "2".to_string()]);
    assert_eq!(out, "x1\n2\n");
    assert_eq!(decimal_string(0), "0");
    assert_eq!(decimal_string(9), "9");
    assert_eq!(decimal_string(10), "10");
    assert_eq!(decimal_string(1234567890), "1234567890");
    assert_eq!(decimal_string(u64::MAX), "18446744073709551615");
    assert_eq!(signed_decimal_string(-555), "-555");
    assert_eq!(signed_decimal_string(i64::MIN), "-9223372036854775808");
    assert_eq!(signed_decimal_string(7), "7");
    assert!(text_less("a", "b"));
    assert!(text_less("", "a"));
    assert!(text_less("ab", "abc"));
    assert!(text_less("Z", "a"));
    assert!(text_less("z", "é"));
    assert!(!text_less("b", "a"));
    assert!(!text_less("abc", "abc"));
    assert!(!text_less("abc", "ab"));
    assert!(!text_less("", ""));
    assert!(same_text("abc", "abc"));
    assert!(!same_text("abc", "abd"));
    assert!(!same_text("abc", "ab"));
}

#[test]
fn paths_join_and_resolve() {
    assert!(path_is_absolute("/a"));
    assert!(!path_is_absolute("a/b"));
    assert!(!path_is_absolute(""));
    assert_eq!(join_path("/root", "a/b"), "/root/a/b");
    assert_eq!(join_path("/root/", "a"), "/root/a");
    assert_eq!(join_path("/root", "/abs"), "/abs");
    assert_eq!(join_path("", "a"), "a");
    assert_eq!(join_path("a", ""), "a/");
    assert_eq!(SmeltPath::new("x/y".to_string()).to_path("/root"), "/root/x/y");
    assert_eq!(SmeltPath::new("/x/y".to_string()).to_path("/root"), "/x/y");
    assert_eq!(resolve_substituted("out.txt", "/repo/pkg"), "/repo/pkg/out.txt");
    assert_eq!(resolve_substituted("/abs/out.txt", "/repo/pkg"), "/abs/out.txt");
}

#[test]
fn root_token_is_replaced() {
    assert_eq!(replace_smelt_root("$SMELT_ROOT/a", "/root"), "/root/a");
    assert_eq!(replace_smelt_root("${SMELT_ROOT}/a", "/root"), "/root/a");
    assert_eq!(replace_smelt_root("x/$SMELT_ROOT/${SMELT_ROOT}", "r"), "x/r/r");
    assert_eq!(replace_smelt_root("plain", "/root"), "plain");
    let path = CommandDefPath::new("$SMELT_ROOT/build/out.bin".to_string());
    assert_eq!(path.to_path("/repo/pkg", "/repo"), "/repo/build/out.bin");
    let relative = CommandDefPath::new("out.txt".to_string());
    assert_eq!(relative.to_path("/repo/pkg", "/repo"), "/repo/pkg/out.txt");
    let inside = CommandDefPath::new("logs/${SMELT_ROOT}.txt".to_string());
    assert_eq!(inside.to_path("/repo/pkg", "r"), "/repo/pkg/logs/r.txt");
}

#[test]
fn file_names() {
    assert_eq!(file_name("/a/b/out.txt"), Some("out.txt".to_string()));
    assert_eq!(file_name("out.txt"), Some("out.txt".to_string()));
    assert_eq!(file_name("/a/b/"), Some("b".to_string()));
    assert_eq!(file_name("/a/b/."), Some("b".to_string()));
    assert_eq!(file_name("/a/b//"), Some("b".to_string()));
    assert_eq!(file_name("/a/.."), None);
    assert_eq!(file_name("/"), None);
    assert_eq!(file_name(""), None);
    assert_eq!(file_name("."), None);
    assert_eq!(file_name(".."), None);
    assert_eq!(file_name("a/.hidden"), Some(".hidden".to_string()));
}

#[test]
fn dependency_names() {
    assert_eq!(CommandDependency::new("//path/to:name".to_string()).get_command_name(), "name");
    assert_eq!(CommandDependency::new("plain".to_string()).get_command_name(), "plain");
    assert_eq!(CommandDependency::new("a:b".to_string()).get_command_name(), "a:b");
    assert_eq!(CommandDependency::new("//x:y:z".to_string()).get_command_name(), "y:z");
    assert_eq!(CommandDependency::new("//nocolon".to_string()).get_command_name(), "//nocolon");
    assert_eq!(CommandDependency::new("//x:".to_string()).get_command_name(), "");
}

#[test]
fn target_types() {
    assert_eq!(TargetType::from_str("test").unwrap(), TargetType::Test);
    assert_eq!(TargetType::from_str("Stimulus").unwrap(), TargetType::Stimulus);
    assert_eq!(TargetType::from_str("BUILD").unwrap(), TargetType::Build);
    match TargetType::from_str("Lint") {
        Err(SmeltErr::BadTargetType(given)) => assert_eq!(given, "Lint"),
        other => panic!("unexpected {:?}", other),
    }
    assert_eq!(TargetType::from_lowercase("BUILD"), None);
    assert_eq!(TargetType::from_lowercase("build"), Some(TargetType::Build));
    assert_eq!(TargetType::Test.to_string(), "test");
    assert_eq!(TargetType::Stimulus.as_str(), "stimulus");
    assert_eq!(TargetType::Build.to_string(), "build");
}

#[test]
fn command_files_and_script() {
    assert_eq!(Command::script_file(), "command.sh");
    assert_eq!(Command::stderr_file(), "command.err");
    assert_eq!(Command::stdout_file(), "command.out");
    let c = command("a");
    assert_eq!(c.default_target_root("/root").unwrap(), "/root/smelt-out/a");
    assert_eq!(
        c.script_contents(),
        vec!["export A=1", "export B=two", "echo hi", "exit 0"]
    );
    let copy = c.clone();
    assert_eq!(copy, c);
    assert!(c.runtime.has_ordered_env());
    let mut twice = c.runtime.clone();
    twice.env.push(("B".to_string(), "again".to_string()));
    assert!(!twice.has_ordered_env());
    let mut backwards = c.runtime.clone();
    backwards.env.reverse();
    assert!(!backwards.has_ordered_env());
    let mut empty = c.runtime.clone();
    empty.env.clear();
    assert!(empty.has_ordered_env());
}

#[test]
fn command_digests() {
    let mut c = command("abc");
    assert_eq!(
        c.id_digest().get_payload(),
        &[
            0xa9, 0x99, 0x3e, 0x36, 0x47, 0x06, 0x81, 0x6a, 0xba, 0x3e, 0x25, 0x71, 0x78, 0x50,
            0xc2, 0x6c, 0x9c, 0xd0, 0xd8, 0x9d
        ]
    );
    // the definition digest is taken of name, type, script and dependencies
    c.name = "a".to_string();
    c.script = vec!["b".to_string()];
    c.dependencies = vec![CommandDependency("c".to_string())];
    // the same bytes, given as a name: "a" + "test" + "b" + "c"
    let joined = command("atestbc");
    assert_eq!(c.def_digest().get_payload(), joined.id_digest().get_payload());
    c.target_type = TargetType::Build;
    assert_ne!(c.def_digest().get_payload(), joined.id_digest().get_payload());
}

#[test]
fn digests_from_text() {
    let digest = CommandDefDigest::from_str("000102030405060708090a0B0c0D0e0F10111213").ok().unwrap();
    assert_eq!(
        digest.get_payload(),
        &[0, 1, 2, 3, 4, 5, 6, 7, 8, 9, 10, 11, 12, 13, 14, 15, 16, 17, 18, 19]
    );
    assert_eq!(CommandDefDigest::new([7; 20]).get_payload(), &[7; 20]);
    assert!(matches!(
        CommandDefDigest::from_str("0001"),
        Err(DigestError::WrongPayloadSize { expected: 20, observed: 2 })
    ));
    assert!(matches!(
        CommandDefDigest::from_str(""),
        Err(DigestError::WrongPayloadSize { expected: 20, observed: 0 })
    ));
    assert!(matches!(CommandDefDigest::from_str("abc"), Err(DigestError::FromHexError(_))));
    assert!(CommandDefDigest::new([7; 20]) == CommandDefDigest::new([7; 20]));
    let mut other = [7; 20];
    other[19] = 8;
    assert!(CommandDefDigest::new([7; 20]) != CommandDefDigest::new(other));
    assert!(matches!(
        CommandDefDigest::from_str("zz0102030405060708090a0b0c0d0e0f10111213"),
        Err(DigestError::FromHexError(_))
    ));
}

#[test]
fn error_messages() {
    let cases: Vec<(SmeltErr, &str)> = vec![
        (SmeltErr::Unknown, "unknown error"),
        (SmeltErr::IoError("disk".to_string()), "IoError disk"),
        (SmeltErr::SerdeYamlError("bad".to_string()), "Serde yaml error bad"),
        (SmeltErr::CommandCacheMiss, "Command cache miss"),
        (SmeltErr::BadTargetType("x".to_string()), "Invalid target type x"),
        (
            SmeltErr::ExecutorFailed("boom".to_string()),
            "Executor failed to execute with error : boom",
        ),
        (
            SmeltErr::MissingCommandDependency { missing_dep_name: "d".to_string() },
            "Dependency for a command named d was found, but no such command was declared",
        ),
        (
            SmeltErr::MissingFileDependency { missing_file_name: "f".to_string() },
            "Dependency for a command named f was found, but no such command was declared",
        ),
        (
            SmeltErr::CommandSettingFailed { reason: "why".to_string() },
            "Setting commands failed; reason is why",
        ),
        (
            SmeltErr::DuplicateCommandName { name: "n".to_string() },
            "Two commands with the same name n where declared",
        ),
        (
            SmeltErr::DuplicateOutput { output: CommandDefPath("o".to_string()) },
            "o was declared twice!",
        ),
        (SmeltErr::BadArtifactName, "Artifact name cannot be parsed out"),
        (SmeltErr::InvalidConfig { reason: "r".to_string() }, "Invalid configuration: r"),
    ];
    for (error, text) in cases {
        assert_eq!(error.to_string(), text);
        assert_eq!(error.clone().to_string(), text);
    }
    assert_eq!(ExecutorErr::CommandIOErr("pipe".to_string()).to_string(), "CommandIoError pipe");
}

fn outputs(exit_code: i32) -> TestOutputs {
    TestOutputs { artifacts: vec![], exit_code }
}

#[test]
fn executed_test_results() {
    let passed = ExecutedTestResult::Success(TestResult {
        test_name: "a".to_string(),
        outputs: Some(outputs(0)),
    });
    let failed = ExecutedTestResult::MissingFiles {
        test_result: TestResult { test_name: "b".to_string(), outputs: Some(outputs(3)) },
        missing_artifacts: vec![ArtifactPointer::file_artifact(
            "x".to_string(),
            "/p/x".to_string(),
        )],
    };
    let skipped = ExecutedTestResult::Skipped;
    assert!(!passed.is_skipped() && !failed.is_skipped() && skipped.is_skipped());
    assert_eq!(passed.test_name(), "a");
    assert_eq!(failed.test_name(), "b");
    assert_eq!(skipped.test_name(), "");
    assert_eq!(passed.get_retcode(), 0);
    assert_eq!(failed.get_retcode(), 3);
    assert_eq!(skipped.get_retcode(), -1);
    assert!(!passed.failed() && failed.failed() && !skipped.failed());
    assert_eq!(failed.clone().to_test_result().test_name, "b");
    assert_eq!(skipped.clone().to_test_result(), TestResult::default());
    assert_eq!(TestResult::default().outputs, None);
    assert!(outputs(0).passed() && !outputs(-555).passed());
    let artifact = ArtifactPointer::file_artifact("n".to_string(), "/p".to_string());
    assert_eq!(artifact.artifact_name, "n");
    assert_eq!(artifact.pointer, Some(Pointer::Path("/p".to_string())));
    assert_eq!(failed.clone(), failed);
}

#[test]
fn client_commands() {
    assert_eq!(
        ClientCommand::send_graph("g".to_string()).client_commands,
        Some(ClientCommands::Setter(SetCommands { command_content: "g".to_string() }))
    );
    assert_eq!(
        ClientCommand::execute_command("c".to_string()).client_commands,
        Some(ClientCommands::Runone(RunOne { command_name: "c".to_string() }))
    );
    assert_eq!(
        ClientCommand::execute_many(vec!["a".to_string(), "b".to_string()]).client_commands,
        Some(ClientCommands::Runmany(RunMany {
            command_names: vec!["a".to_string(), "b".to_string()]
        }))
    );
    assert_eq!(
        ClientCommand::execute_type("test".to_string()).client_commands,
        Some(ClientCommands::Runtype(RunType { typeinfo: "test".to_string() }))
    );
    assert_eq!(
        ClientCommand::get_cfg().client_commands,
        Some(ClientCommands::Getcfg(GetConfig {}))
    );
    assert_eq!(RunMode::from_i32(0), Some(RunMode::Local));
    assert_eq!(RunMode::from_i32(1), Some(RunMode::Remote));
    assert_eq!(RunMode::from_i32(2), None);
    assert_eq!(ProfilingSelection::Disabled.as_i32(), 0);
    assert_eq!(ProfilingSelection::SimpleProf.as_i32(), 1);
}

#[test]
fn events_are_made_with_their_payload() {
    let started = Event::command_started("a".to_string(), "t".to_string());
    assert_eq!(started.trace_id, "t");
    assert_eq!(
        started.et,
        Some(Et::Command(CommandEvent {
            command_ref: "a".to_string(),
            command_variant: Some(CommandVariant::Started(CommandStarted {})),
        }))
    );
    let time = started.time.expect("a time");
    assert!(time.nanos >= 0 && time.nanos < 1_000_000_000);
    assert!(time.seconds > 1_500_000_000);
    let at = Event::new_at(Et::done(), "t".to_string(), Timestamp { seconds: 5, nanos: 6 });
    assert_eq!(at.time, Some(Timestamp { seconds: 5, nanos: 6 }));
    assert!(at.finished_event());
    assert!(Event::done("t".to_string()).finished_event());
    assert!(!started.finished_event());
    let set = Event::set_graph();
    assert_eq!(set.trace_id, "");
    assert_eq!(set.et, Some(Et::set_graph()));
    let finished = Event::command_finished(
        TestResult { test_name: "a".to_string(), outputs: Some(outputs(2)) },
        "t".to_string(),
    );
    match finished.et.as_ref().unwrap() {
        Et::Command(c) => {
            assert_eq!(c.command_ref, "a");
            assert_eq!(c.passed(), Some(false));
            assert_eq!(c.command_variant.as_ref().unwrap().passed(), Some(false));
        }
        other => panic!("unexpected {:?}", other),
    }
    assert!(CommandFinished { outputs: Some(outputs(0)) }.passed());
    match started.et.as_ref().unwrap() {
        Et::Command(c) => assert_eq!(c.passed(), None),
        other => panic!("unexpected {:?}", other),
    }
    let cancelled = Event::command_cancelled("s".to_string(), "t".to_string());
    assert!(matches!(
        cancelled.et,
        Some(Et::Command(CommandEvent { command_variant: Some(CommandVariant::Cancelled(_)), .. }))
    ));
    let skipped = Event::command_skipped("s".to_string(), "t".to_string());
    assert!(matches!(
        skipped.et,
        Some(Et::Command(CommandEvent { command_variant: Some(CommandVariant::Skipped(_)), .. }))
    ));
    let stdout = Event::command_stdout("s".to_string(), "t".to_string(), "line".to_string());
    match stdout.et.unwrap() {
        Et::Command(CommandEvent { command_variant: Some(CommandVariant::Stdout(s)), .. }) => {
            assert_eq!(s.output, "line")
        }
        other => panic!("unexpected {:?}", other),
    }
    let client = Event::client_error("oops".to_string());
    assert_eq!(client.trace_id, "CLIENT_ERROR");
    assert_eq!(
        client.et,
        Some(Et::Error(SmeltError {
            sig: SmeltErrorType::ClientError,
            error_payload: "oops".to_string()
        }))
    );
    let runtime = Event::runtime_error("oops".to_string(), "t".to_string());
    assert_eq!(runtime.trace_id, "t");
    assert!(matches!(
        runtime.et,
        Some(Et::Error(SmeltError { sig: SmeltErrorType::InternalError, .. }))
    ));
    let validate = Event::graph_validate_error("oops".to_string());
    assert_eq!(validate.trace_id, "VALIDATE_ERROR");
    assert!(matches!(
        validate.et,
        Some(Et::Error(SmeltError { sig: SmeltErrorType::ValidateError, .. }))
    ));
    let made = new_command_event(
        "c".to_string(),
        CommandVariant::Started(CommandStarted {}),
        "t".to_string(),
    );
    assert_eq!(made.et, Event::command_started("c".to_string(), "t".to_string()).et);
    let invoke = new_invoke_event("t".to_string(), InvokeVariant::Done(AllCommandsDone {}));
    assert_eq!(
        invoke.et,
        Some(Et::Invoke(InvokeEvent {
            invoke_variant: Some(InvokeVariant::Done(AllCommandsDone {}))
        }))
    );
    assert_eq!(output_asfile(), "command.status");
}

#[test]
fn workspace_layout() {
    assert_eq!(get_target_root("/root", "a"), "/root/smelt-out/a");
    let mut c = command("a");
    c.working_dir = "/repo/pkg".to_string();
    let ws = prepare_workspace(&c, "/root", "/repo/pkg");
    assert_eq!(ws.working_dir, "/root/smelt-out/a");
    assert_eq!(ws.script_file, "/root/smelt-out/a/command.sh");
    assert_eq!(ws.stdout_file, "/root/smelt-out/a/command.out");
    assert_eq!(
        ws.script,
        "export SMELT_ROOT=/root\nexport TARGET_ROOT=/root/smelt-out/a\ncd /repo/pkg\necho hi\nexit 0\n"
    );
}

#[test]
fn lines_are_written_and_sent() {
    let c = command("a");
    let loud = handle_line(&c, "hello".to_string(), "t".to_string(), false);
    assert_eq!(loud.written, "hello\n");
    let event = loud.event.expect("an event");
    assert_eq!(event.trace_id, "t");
    match event.et.unwrap() {
        Et::Command(CommandEvent {
            command_ref,
            command_variant: Some(CommandVariant::Stdout(s)),
        }) => {
            assert_eq!(command_ref, "a");
            assert_eq!(s.output, "hello");
        }
        other => panic!("unexpected {:?}", other),
    }
    let quiet = handle_line(&c, "hello".to_string(), "t".to_string(), true);
    assert_eq!(quiet.written, "hello\n");
    assert!(quiet.event.is_none());
}

#[test]
fn test_results_sort_outputs_into_found_and_missing() {
    let mut c = command("a");
    c.outputs = vec![
        CommandDefPath("one.txt".to_string()),
        CommandDefPath("$SMELT_ROOT/two.txt".to_string()),
        CommandDefPath("/abs/three.txt".to_string()),
    ];
    let paths = declared_outputs(&c, "/root");
    assert_eq!(paths, vec!["/repo/pkg/one.txt", "/root/two.txt", "/abs/three.txt"]);
    let all = create_test_result(&c, 0, "/root", &paths, &vec![true, true, true]);
    match &all {
        ExecutedTestResult::Success(result) => {
            assert_eq!(result.test_name, "a");
            let outputs = result.outputs.as_ref().unwrap();
            assert_eq!(outputs.exit_code, 0);
            let names: Vec<&str> =
                outputs.artifacts.iter().map(|a| a.artifact_name.as_str()).collect();
            assert_eq!(names, vec!["smelt_log", "one.txt", "two.txt", "three.txt"]);
            assert_eq!(
                outputs.artifacts[0].pointer,
                Some(Pointer::Path("/root/smelt-out/a/command.out".to_string()))
            );
            assert_eq!(
                outputs.artifacts[2].pointer,
                Some(Pointer::Path("/root/two.txt".to_string()))
            );
        }
        other => panic!("unexpected {:?}", other),
    }
    let some = create_test_result(&c, 7, "/root", &paths, &vec![false, true, false]);
    match &some {
        ExecutedTestResult::MissingFiles { test_result, missing_artifacts } => {
            let outputs = test_result.outputs.as_ref().unwrap();
            assert_eq!(outputs.exit_code, 7);
            let found: Vec<&str> =
                outputs.artifacts.iter().map(|a| a.artifact_name.as_str()).collect();
            assert_eq!(found, vec!["smelt_log", "two.txt"]);
            let missing: Vec<&str> =
                missing_artifacts.iter().map(|a| a.artifact_name.as_str()).collect();
            assert_eq!(missing, vec!["one.txt", "three.txt"]);
        }
        other => panic!("unexpected {:?}", other),
    }
    assert_eq!(some.get_retcode(), 7);
}

fn docker_cfg(run_mode: i32) -> CfgDocker {
    CfgDocker {
        image_name: "img:1".to_string(),
        additional_mounts: vec![
            ("/data".to_string(), "/mnt/data".to_string()),
            ("/tools".to_string(), "/opt/tools".to_string()),
        ],
        ulimits: vec![Ulimit { name: "nofile".to_string(), soft: 1024, hard: 2048 }],
        mac_address: Some("02:42:ac:11:00:02".to_string()),
        run_mode,
        artifact_bind_directory: "/artifacts".to_string(),
    }
}

#[test]
fn docker_container_with_the_root_mounted() {
    let executor = DockerExecutor::new(&docker_cfg(0)).ok().unwrap();
    assert_eq!(executor.run_mode, RunMode::Local);
    let config = executor.container_config(&command("a"), "/root", "/root/smelt-out/a/command.sh");
    assert_eq!(config.image, "img:1");
    assert_eq!(config.working_dir, "/root");
    assert_eq!(config.cmd, vec!["bash", "/root/smelt-out/a/command.sh"]);
    assert_eq!(config.env, vec!["SMELT_ROOT=/root", "TARGET_ROOT=/root/smelt-out/a"]);
    assert_eq!(
        config.binds,
        vec!["/root:/root", "/artifacts/a:/tmp/artifacts/", "/data:/mnt/data", "/tools:/opt/tools"]
    );
    assert_eq!(config.mac_address, Some("02:42:ac:11:00:02".to_string()));
    assert_eq!(config.ulimits, vec![Ulimit { name: "nofile".to_string(), soft: 1024, hard: 2048 }]);
}

#[test]
fn docker_container_without_the_root() {
    let executor = DockerExecutor::new(&docker_cfg(1)).ok().unwrap();
    assert_eq!(executor.run_mode, RunMode::Remote);
    let config = executor.container_config(&command("a"), "/root", "ignored");
    assert_eq!(
        config.cmd,
        vec!["bash", "-c", "mkdir -p /root/smelt-out/a && echo hi && exit 0"]
    );
    assert_eq!(config.binds, vec!["/artifacts/a:/tmp/artifacts/"]);
    assert!(docker_cfg(1).has_distinct_mounts());
    let mut twice = docker_cfg(1);
    twice.additional_mounts.push(("/data".to_string(), "/elsewhere".to_string()));
    assert!(!twice.has_distinct_mounts());
    match DockerExecutor::new(&docker_cfg(-7)) {
        Err(SmeltErr::InvalidConfig { reason }) => {
            assert_eq!(reason, "Unknown docker run_mode: -7")
        }
        _ => panic!("an unknown run mode must be refused"),
    }
}

#[test]
fn docker_names_logs_and_exits() {
    assert_eq!(container_name("a", "xyz"), "a_xyz");
    let fresh = fresh_container_name("cmd");
    assert_eq!(fresh.len(), 4 + 11);
    assert!(fresh.starts_with("cmd_"));
    assert!(fresh[4..].chars().all(|c| c.is_ascii_alphanumeric()));
    assert_ne!(fresh_container_name("cmd"), fresh);
    assert_eq!(
        log_line(LogOutput::StdOut { message: "héllo".as_bytes().to_vec() }),
        Some("héllo".to_string())
    );
    assert_eq!(log_line(LogOutput::StdErr { message: b"err".to_vec() }), Some("err".to_string()));
    assert_eq!(log_line(LogOutput::StdOut { message: vec![0xff, 0xfe] }), None);
    assert_eq!(log_line(LogOutput::Console { message: b"x".to_vec() }), None);
    assert_eq!(log_line(LogOutput::StdIn { message: b"x".to_vec() }), None);
    assert_eq!(WaitOutcome::Exited { status_code: 0 }.exit_code(), 0);
    assert_eq!(WaitOutcome::WaitError { code: 3 }.exit_code(), 3);
    assert_eq!(WaitOutcome::Failed.exit_code(), 1);
    assert_eq!(WaitOutcome::NoAnswer.status_code(), 1);
}

#[test]
fn local_executor_pump() {
    assert_eq!(exit_code_or_sentinel(Some(4)), 4);
    assert_eq!(exit_code_or_sentinel(None), -555);
    assert_eq!(shell_invocation("/x/command.sh"), vec!["bash", "/x/command.sh"]);
    assert!(LocalExecutorBuilder::new().threads(8).build().is_ok());
    assert_eq!(LocalExecutorBuilder::new().thread_number(), 4);
    assert_eq!(LocalExecutorBuilder::new().threads(8).thread_number(), 8);
    assert_eq!(smelt::events::EVENT_STREAM_CAPACITY, 100);
    assert_eq!(LocalExecutorBuilder::new().build().ok(), Some(LocalExecutor {}));
    let c = command("a");
    let mut pump = PumpState::new();
    assert_eq!(pump, PumpState::Running { stdout_open: true, stderr_open: true });
    match pump.on_input(PumpInput::StdoutLine("out".to_string()), &c, "t", false) {
        PumpAction::Line(line) => {
            assert_eq!(line.written, "out\n");
            match line.event.unwrap().et.unwrap() {
                Et::Command(CommandEvent {
                    command_ref,
                    command_variant: Some(CommandVariant::Stdout(s)),
                }) => {
                    assert_eq!(command_ref, "a");
                    assert_eq!(s.output, "out");
                }
                other => panic!("unexpected {:?}", other),
            }
        }
        other => panic!("unexpected {:?}", other),
    }
    match pump.on_input(PumpInput::StderrLine("err".to_string()), &c, "t", true) {
        PumpAction::Line(line) => {
            assert_eq!(line.written, "err\n");
            assert!(line.event.is_none());
        }
        other => panic!("unexpected {:?}", other),
    }
    assert_eq!(
        pump.on_input(PumpInput::Exit { code: None }, &c, "t", false),
        PumpAction::StopProfiler
    );
    assert_eq!(pump, PumpState::Draining { exit_code: -555, stdout_open: true, stderr_open: true });
    // what the child wrote before it exited is still taken down, on both streams
    assert!(matches!(
        pump.on_input(PumpInput::StdoutLine("late".to_string()), &c, "t", false),
        PumpAction::Line(_)
    ));
    match pump.on_input(PumpInput::StderrLine("late error".to_string()), &c, "t", false) {
        PumpAction::Line(line) => assert_eq!(line.written, "late error\n"),
        other => panic!("unexpected {:?}", other),
    }
    assert_eq!(pump.on_input(PumpInput::StdoutClosed, &c, "t", false), PumpAction::Nothing);
    assert!(matches!(
        pump.on_input(PumpInput::StderrLine("last".to_string()), &c, "t", false),
        PumpAction::Line(_)
    ));
    assert_eq!(
        pump.on_input(PumpInput::StderrClosed, &c, "t", false),
        PumpAction::Done(TestOutputs { artifacts: vec![], exit_code: -555 })
    );
    assert_eq!(pump, PumpState::Finished { exit_code: -555 });
    assert_eq!(
        pump.on_input(PumpInput::StdoutLine("x".to_string()), &c, "t", false),
        PumpAction::Nothing
    );
    // streams that end before the exit
    let mut early = PumpState::new();
    assert_eq!(early.on_input(PumpInput::StderrClosed, &c, "t", false), PumpAction::Nothing);
    assert_eq!(early.on_input(PumpInput::StdoutClosed, &c, "t", false), PumpAction::Nothing);
    assert_eq!(
        early.on_input(PumpInput::Exit { code: Some(3) }, &c, "t", false),
        PumpAction::Done(TestOutputs { artifacts: vec![], exit_code: 3 })
    );
    assert_eq!(early, PumpState::Finished { exit_code: 3 });
}

#[test]
fn process_samples_add_up() {
    let usages = vec![
        ProcessUsage { memory_used: 100, system_time: 10, user_time: 20 },
        ProcessUsage { memory_used: 50, system_time: 1, user_time: 2 },
    ];
    assert_eq!(
        sample_memory_and_load(&usages, Timebase { numer: 1, denom: 1 }),
        Some(SampleStruct { memory_used: 150, cpu_time_delta: 33 })
    );
    assert_eq!(
        sample_memory_and_load(&usages, Timebase { numer: 125, denom: 3 }),
        Some(SampleStruct { memory_used: 150, cpu_time_delta: 1250 + 125 })
    );
    assert_eq!(
        sample_memory_and_load(&vec![], Timebase { numer: 1, denom: 1 }),
        Some(SampleStruct { memory_used: 0, cpu_time_delta: 0 })
    );
}

fn profile_in(event: &Event) -> (String, CommandProfile) {
    match event.et.as_ref().unwrap() {
        Et::Command(CommandEvent {
            command_ref,
            command_variant: Some(CommandVariant::Profile(profile)),
        }) => (command_ref.clone(), *profile),
        other => panic!("unexpected {:?}", other),
    }
}

#[test]
fn profiles_of_local_samples() {
    let prev = SampleStruct { memory_used: 10, cpu_time_delta: 1_000_000 };
    let sample = SampleStruct { memory_used: 42, cpu_time_delta: 3_000_000 };
    let event = profile_event(&"t".to_string(), &"a".to_string(), &sample, &prev, 4_000, 250);
    assert_eq!(event.trace_id, "t");
    let (name, profile) = profile_in(&event);
    assert_eq!(name, "a");
    assert_eq!(
        profile,
        CommandProfile {
            memory_used: 42,
            cpu_load: CpuLoad { cpu_time: 2_000_000, wall_time: 4_000, multiplier: 1, divisor: 1_000 },
            time_since_start_ms: 250,
        }
    );
    // 2 ms of processor time in 4 ms: half a processor
    let load = profile.cpu_load.cpu_time as f64 / profile.cpu_load.wall_time as f64
        * profile.cpu_load.multiplier as f64
        / profile.cpu_load.divisor as f64;
    assert_eq!(load, 0.5);
    let backwards = profile_event(&"t".to_string(), &"a".to_string(), &prev, &sample, 1, 1);
    assert_eq!(profile_in(&backwards).1.cpu_load.cpu_time, 0);
}

fn stats() -> Stats {
    Stats {
        read: "2024-05-06T07:08:09.250Z".to_string(),
        cpu_total_usage: 700,
        precpu_total_usage: 200,
        system_cpu_usage: Some(3000),
        precpu_system_cpu_usage: Some(1000),
        online_cpus: Some(4),
        percpu_usage_len: Some(8),
        memory_usage: Some(1000),
        memory_stats: Some(MemoryStatsStats::V1 { cache: 100 }),
    }
}

#[test]
fn profiles_of_container_statistics() {
    let (trace, name) = ("t".to_string(), "a".to_string());
    let event = docker_profile_event(&trace, &name, &stats(), 17).expect("an event");
    assert_eq!(
        profile_in(&event).1,
        CommandProfile {
            memory_used: 900,
            cpu_load: CpuLoad { cpu_time: 500, wall_time: 2000, multiplier: 4, divisor: 1 },
            time_since_start_ms: 17,
        }
    );
    let mut v2 = stats();
    v2.memory_stats = Some(MemoryStatsStats::V2 { inactive_file: 1 });
    v2.online_cpus = None;
    v2.precpu_system_cpu_usage = Some(5000);
    let profile = profile_in(&docker_profile_event(&trace, &name, &v2, 0).unwrap()).1;
    assert_eq!(profile.memory_used, 999);
    assert_eq!(profile.cpu_load.multiplier, 8);
    assert_eq!(profile.cpu_load.wall_time, 0);
    assert!(stats().is_consistent());
    assert!(!Stats { cpu_total_usage: 1, ..stats() }.is_consistent());
    assert!(!Stats { memory_usage: Some(99), ..stats() }.is_consistent());
    assert!(Stats { memory_usage: None, ..stats() }.is_consistent());
    let mut plain = stats();
    plain.memory_stats = None;
    assert_eq!(
        profile_in(&docker_profile_event(&trace, &name, &plain, 0).unwrap()).1.memory_used,
        1000
    );
    for broken in [
        Stats { system_cpu_usage: None, ..stats() },
        Stats { precpu_system_cpu_usage: None, ..stats() },
        Stats { online_cpus: None, percpu_usage_len: None, ..stats() },
        Stats { memory_usage: None, memory_stats: None, ..stats() },
    ] {
        assert!(docker_profile_event(&trace, &name, &broken, 0).is_none());
    }
}

#[test]
fn container_statistics_carry_their_time() {
    let (trace, name) = ("t".to_string(), "a".to_string());
    // 2024-05-06T07:08:09.250Z is 1714979289250 ms after the epoch
    let event = docker_stats_to_event(&trace, &name, &stats(), 1_714_979_289_000).unwrap();
    assert_eq!(profile_in(&event).1.time_since_start_ms, 250);
    let early = docker_stats_to_event(&trace, &name, &stats(), u64::MAX).unwrap();
    assert_eq!(profile_in(&early).1.time_since_start_ms, 0);
    let zeroed = Stats { read: "0001-01-01T00:00:00Z".to_string(), ..stats() };
    assert!(docker_stats_to_event(&trace, &name, &zeroed, 0).is_none());
    let unreadable = Stats { read: "yesterday".to_string(), ..stats() };
    assert!(docker_stats_to_event(&trace, &name, &unreadable, 0).is_none());
    assert!(docker_stats_event_at(&trace, &name, &stats(), -1, 0).is_none());
    let at = docker_stats_event_at(&trace, &name, &stats(), 1_500, 1_000).unwrap();
    assert_eq!(profile_in(&at).1.time_since_start_ms, 500);
}

fn cfg() -> ConfigureSmelt {
    ConfigureSmelt {
        smelt_root: "/root".to_string(),
        job_slots: 3,
        silent: false,
        test_only: false,
        prof_cfg: Some(ProfilerCfg { prof_type: 1, sampling_period: 250 }),
        init_executor: None,
    }
}

#[test]
fn runtime_support() {
    let mut data = InvocationData::new();
    data.init_trace_id();
    let first = data.get_trace_id();
    assert_eq!(first.len(), 36);
    assert_eq!(first.matches('-').count(), 4);
    assert_eq!(data.get_trace_id(), first);
    let mut other = InvocationData::new();
    other.init_trace_id();
    assert_ne!(other.get_trace_id(), first);

    let global = GlobalData::new(cfg());
    assert_eq!(global.get_smelt_cfg(), &cfg());
    assert_eq!(global.get_smelt_root(), "/root");
    assert_eq!(global.get_job_slots(), 3);
    assert_eq!(global.get_profiling_freq(), Some(250));
    assert_eq!(global.permits_for(1), 1);
    assert_eq!(global.permits_for(3), 3);
    assert_eq!(global.permits_for(64), 3);
    assert_eq!(global.permits_for(0), 0);
    let mut off = cfg();
    off.prof_cfg = Some(ProfilerCfg { prof_type: 0, sampling_period: 250 });
    assert_eq!(GlobalData::new(off).get_profiling_freq(), None);
    let mut none = cfg();
    none.prof_cfg = None;
    assert_eq!(GlobalData::new(none).get_profiling_freq(), None);

    let mut builder = GlobalDataBuilder::new();
    assert!(GlobalDataBuilder::new().build().is_none());
    builder.set_smelt_cfg(cfg());
    builder.set_sempahore(2);
    let built = builder.build().expect("a configuration was set");
    assert_eq!(built.get_job_slots(), 3);
}

#[test]
fn execution_preamble() {
    let git = || GitInfo { hash: "h".to_string(), branch: "b".to_string(), repo: "r".to_string() };
    let known = execution_start(
        Some("host".to_string()),
        Some("user".to_string()),
        "/root".to_string(),
        git(),
    );
    assert_eq!(known.hostname, "host");
    assert_eq!(known.username, "user");
    assert_eq!(known.smelt_root, "/root");
    assert_eq!((known.git_hash.as_str(), known.git_branch.as_str(), known.git_repo.as_str()), ("h", "b", "r"));
    let unknown = execution_start(None, None, "/root".to_string(), git());
    assert_eq!(unknown.hostname, "unknown_host");
    assert_eq!(unknown.username, "unkown_user");
    let here = exec_info("/root".to_string(), git());
    assert_eq!(here.smelt_root, "/root");
    assert!(!here.hostname.is_empty());
    let event = invoke_start_message("t".to_string(), "/root".to_string(), git());
    assert_eq!(event.trace_id, "t");
    match event.et.unwrap() {
        Et::Invoke(InvokeEvent { invoke_variant: Some(InvokeVariant::Start(start)) }) => {
            assert_eq!(start.smelt_root, "/root");
            assert_eq!(start.git_hash, "h");
        }
        other => panic!("unexpected {:?}", other),
    }
}

#[test]
fn graph_keys() {
    let reference = CommandRef::new(command("a"));
    assert_eq!(reference.command().name, "a");
    assert_eq!(reference.clone(), reference);
    let query = QueryCommandRef::from_ref(reference.clone());
    assert_eq!(query.into_ref(), reference);
    assert_eq!(LookupCommand::from_str_ref("a").0, "a");
    assert!(matches!(
        LookupCommand::from_str_ref("a").into_error(),
        SmeltErr::MissingCommandDependency { missing_dep_name } if missing_dep_name == "a"
    ));
    let path = CommandDefPath("x.txt".to_string());
    assert_eq!(LookupFileMaker::from_ref(&path).0, path);
    assert_eq!(LookupFileMaker::from_str_ref("x.txt").0, path);
    assert!(matches!(
        LookupFileMaker::from_ref(&path).into_error(),
        SmeltErr::MissingFileDependency { missing_file_name } if missing_file_name == "x.txt"
    ));
}

fn at(seconds: i64) -> Timestamp {
    Timestamp { seconds, nanos: 0 }
}

#[test]
fn exec_command_state_machine() {
    let mut c = ExecCommand::scheduled(at(1));
    assert_eq!(c.status, ExecCommandState::Scheduled { sched_time: at(1) });
    assert_eq!(c.completed(at(2), 0), Err(InvocationTrackerError::InvalidStateTransition));
    assert_eq!(c.cancelled(at(2)), Err(InvocationTrackerError::InvalidStateTransition));
    assert_eq!(c.started(at(2)), Ok(()));
    assert_eq!(c.status, ExecCommandState::Running { sched_time: at(1), started_time: at(2) });
    assert_eq!(c.started(at(3)), Err(InvocationTrackerError::InvalidStateTransition));
    assert_eq!(c.skipped(at(3)), Err(InvocationTrackerError::InvalidStateTransition));
    assert_eq!(c.completed(at(3), 9), Ok(()));
    assert_eq!(
        c.status,
        ExecCommandState::Completed {
            status_code: 9,
            sched_time: at(1),
            started_time: at(2),
            ended_time: at(3)
        }
    );
    assert_eq!(c.cancelled(at(4)), Err(InvocationTrackerError::InvalidStateTransition));
    let mut cancelled = ExecCommand::scheduled(at(1));
    cancelled.started(at(2)).unwrap();
    assert_eq!(cancelled.cancelled(at(5)), Ok(()));
    assert_eq!(
        cancelled.status,
        ExecCommandState::Cancelled {
            sched_time: at(1),
            started_time: at(2),
            cancelled_time: at(5)
        }
    );
    let mut skipped = ExecCommand::scheduled(at(1));
    assert_eq!(skipped.skipped(at(2)), Ok(()));
    assert_eq!(skipped.status, ExecCommandState::Skipped { sched_time: at(1), skipped_time: at(2) });
    assert_eq!(skipped.started(at(3)), Err(InvocationTrackerError::InvalidStateTransition));
}

#[test]
fn invocation_state_machine() {
    let git = GitInfo { hash: String::new(), branch: String::new(), repo: String::new() };
    let start = execution_start(Some("h".to_string()), Some("u".to_string()), "/r".to_string(), git);
    let mut state = InvocationState::Uninit;
    assert_eq!(state.to_completed(), Err(InvocationTrackerError::InvalidInvokeST));
    assert_eq!(state.process(&InvokeVariant::Start(start)), Ok(()));
    match &state {
        InvocationState::Running(meta) => {
            assert_eq!(meta.path, "/r");
            assert_eq!(meta.username, "u");
            assert_eq!(meta.hostname, "h");
        }
        other => panic!("unexpected {:?}", other),
    }
    let git = GitInfo { hash: String::new(), branch: String::new(), repo: String::new() };
    let again = execution_start(None, None, "/r".to_string(), git);
    assert_eq!(state.to_start(again), Err(InvocationTrackerError::InvalidInvokeST));
    assert_eq!(state.process(&InvokeVariant::Done(AllCommandsDone {})), Ok(()));
    assert!(matches!(state, InvocationState::Completed(_)));
    assert_eq!(
        state.process(&InvokeVariant::Done(AllCommandsDone {})),
        Err(InvocationTrackerError::InvalidInvokeST)
    );
}

fn timed(mut event: Event, seconds: i64) -> Event {
    event.time = Some(at(seconds));
    event
}

#[test]
fn tracker_follows_an_invocation() {
    let mut tracker = SingleInvocationTracker::new();
    let t = || "t".to_string();
    let git = GitInfo { hash: String::new(), branch: String::new(), repo: String::new() };
    assert_eq!(tracker.track(&invoke_start_message(t(), "/r".to_string(), git)), Ok(()));
    assert_eq!(tracker.state_of("a"), None);
    assert_eq!(tracker.track(&timed(Event::command_started("a".to_string(), t()), 1)), Ok(()));
    assert_eq!(
        tracker.state_of("a"),
        Some(ExecCommandState::Running { sched_time: at(1), started_time: at(1) })
    );
    assert_eq!(
        tracker.track(&timed(Event::command_stdout("a".to_string(), t(), "x".to_string()), 2)),
        Ok(())
    );
    assert_eq!(
        tracker.track(&timed(Event::command_started("a".to_string(), t()), 2)),
        Err(InvocationTrackerError::InvalidStateTransition)
    );
    assert_eq!(
        tracker.track(&timed(Event::command_skipped("a".to_string(), t()), 2)),
        Err(InvocationTrackerError::InvalidStateTransition)
    );
    let finished = Event::command_finished(
        TestResult { test_name: "a".to_string(), outputs: Some(outputs(4)) },
        t(),
    );
    assert_eq!(tracker.track(&timed(finished, 3)), Ok(()));
    assert_eq!(
        tracker.state_of("a"),
        Some(ExecCommandState::Completed {
            status_code: 4,
            sched_time: at(1),
            started_time: at(1),
            ended_time: at(3)
        })
    );
    assert_eq!(tracker.track(&timed(Event::command_skipped("b".to_string(), t()), 4)), Ok(()));
    assert_eq!(
        tracker.state_of("b"),
        Some(ExecCommandState::Skipped { sched_time: at(4), skipped_time: at(4) })
    );
    assert_eq!(
        tracker.track(&timed(Event::command_stdout("c".to_string(), t(), "x".to_string()), 5)),
        Err(InvocationTrackerError::InvalidStateTransition)
    );
    assert_eq!(tracker.state_of("c"), None);
    assert_eq!(tracker.track(&Event::runtime_error("e".to_string(), t())), Ok(()));
    assert!(!tracker.is_completed());
    assert_eq!(tracker.recv_event(&Event::done(t())), Ok(()));
    assert!(tracker.is_completed());
    assert_eq!(tracker.track(&Event::done(t())), Err(InvocationTrackerError::InvalidInvokeST));
    let empty = Event { trace_id: t(), time: Some(at(1)), et: None };
    assert_eq!(tracker.track(&empty), Err(InvocationTrackerError::EventMissing));
    let timeless = Event { time: None, ..Event::done(t()) };
    assert_eq!(tracker.track(&timeless), Err(InvocationTrackerError::EventMissing));
    let no_outputs = Event::from_command_variant(
        "a".to_string(),
        t(),
        CommandVariant::Finished(CommandFinished { outputs: None }),
    );
    assert_eq!(
        tracker.track(&no_outputs),
        Err(InvocationTrackerError::UncoveredCommand("a".to_string()))
    );
    assert_eq!(
        InvocationTrackerError::InvalidStateTransition.to_string(),
        "Invalid state transition for a command"
    );
    tracker.exit();
}

#[test]
fn trackers_are_kept_by_trace_id() {
    let mut all = RunningInvocationTracker::new();
    assert!(all.get("one").is_none());
    assert_eq!(all.track(&Event::command_started("a".to_string(), "one".to_string())), Ok(()));
    assert_eq!(all.track(&Event::command_skipped("a".to_string(), "two".to_string())), Ok(()));
    assert_eq!(
        all.recv_event(&Event::command_started("a".to_string(), "two".to_string())),
        Err(InvocationTrackerError::InvalidStateTransition)
    );
    assert!(matches!(
        all.get("one").unwrap().state_of("a"),
        Some(ExecCommandState::Running { .. })
    ));
    assert!(matches!(
        all.get("two").unwrap().state_of("a"),
        Some(ExecCommandState::Skipped { .. })
    ));
    assert!(all.get("three").is_none());
}
