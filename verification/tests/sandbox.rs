use task_maker_exec::dag::{
    EnvVar, Execution, ExecutionCommand, ExecutionInput, ExecutionOutput,
};
use task_maker_exec::proto::ExecutionResourcesUsage;
use task_maker_exec::sandbox::{
    command_line, command_note, join_path, write_seconds, CleanUp, DepPath, Sandbox,
    SandboxResult, SetupStep, TMBoxResult,
};

fn assert_contains(source: &[String], check: &[&str]) {
    for i in 0..source.len() {
        if source[i] == check[0] {
            let mut valid = true;
            for j in 1..check.len() {
                if source[i + j] != check[j] {
                    valid = false;
                    break;
                }
            }
            if valid {
                return;
            }
        }
    }
    panic!("{:?} does not contain {:?}", source, check);
}

#[test]
fn test_command_args() {
    let tmpdir = tempdir::TempDir::new("tm-test").unwrap();
    let mut exec = Execution::new(
        1,
        "test".to_string(),
        ExecutionCommand::Local("foo".to_string()),
    );
    exec.args = vec!["bar".to_string(), "baz".to_string()];
    exec.limits.sys_time = Some(1000);
    exec.limits.cpu_time = Some(2600);
    exec.limits.wall_time = Some(10000);
    exec.limits.mount_tmpfs = true;
    exec.limits.extra_readable_dirs.push("/home".to_string());
    exec.limits.nproc = Some(2);
    exec.limits.memory = Some(1234);
    exec.env.push(EnvVar { name: "foo".to_string(), value: "bar".to_string() });
    let sandbox = Sandbox::new(tmpdir.path().to_string_lossy().to_string(), &exec);
    let args = sandbox.build_command().unwrap();
    let extra_time = exec.extra_time as f64 / 1000.0;
    let total_time = 1.0 + 2.6 + extra_time;
    let wall_time = 10.0 + extra_time;
    let boxdir = tmpdir.path().join("box");
    assert_contains(&args, &["--directory", &boxdir.to_string_lossy()]);
    assert_contains(&args, &["--json"]);
    assert_contains(&args, &["--time", &total_time.to_string()]);
    assert_contains(&args, &["--wall", &wall_time.to_string()]);
    assert_contains(&args, &["--memory", "1234"]);
    assert_contains(&args, &["--readable-dir", "/home"]);
    assert_contains(&args, &["--mount-tmpfs"]);
    assert_contains(&args, &["--multiprocess"]);
    assert_contains(&args, &["--env", "foo=bar"]);
    assert_contains(&args, &["--stdin", "/dev/null"]);
    assert_contains(&args, &["--stdout", "/dev/null"]);
    assert_contains(&args, &["--stderr", "/dev/null"]);
    assert_contains(&args, &["--", "foo", "bar", "baz"]);
}

#[test]
fn command_line_is_exact() {
    let mut exec = Execution::new(7, "exact".to_string(), ExecutionCommand::System("prog".to_string()));
    exec.stdin = Some(1);
    exec.stdout = Some(2);
    exec.args = vec!["a".to_string()];
    exec.limits.cpu_time = Some(1500);
    exec.limits.wall_time = Some(2000);
    exec.extra_time = 250;
    exec.limits.memory = Some(64);
    let args = command_line(
        "/tmp/box1",
        &exec,
        &vec!["/usr".to_string()],
        "/usr/bin/prog".to_string(),
    );
    let expected: Vec<String> = vec![
        "--directory", "/tmp/box1/box", "--json", "--env", "PATH",
        "--stdin", "/tmp/box1/stdin", "--stdout", "/tmp/box1/stdout", "--stderr", "/dev/null",
        "--time", "1.75", "--wall", "2.25", "--memory", "64",
        "--readable-dir", "/usr", "--", "/usr/bin/prog", "a",
    ]
    .into_iter()
    .map(|s| s.to_string())
    .collect();
    assert_eq!(args, expected);
}

#[test]
fn system_program_is_looked_up() {
    let exec = Execution::new(1, "t".to_string(), ExecutionCommand::System("true".to_string()));
    let sandbox = Sandbox::new("/tmp/some-box".to_string(), &exec);
    let args = sandbox.build_command().unwrap();
    let at = args.iter().position(|a| a == "--").unwrap();
    assert!(args[at + 1].ends_with("/true"));
    assert!(args[at + 1].starts_with('/'));
    assert_contains(&args, &["--readable-dir", "/usr"]);
    let with = sandbox.build_command_with(&vec![false, false, true], Some("/x/true".to_string())).unwrap();
    assert_contains(&with, &["--readable-dir", "/usr", "--", "/x/true"]);
    assert!(!with.contains(&"/lib".to_string()));
}

#[test]
fn missing_program_is_an_error() {
    let exec = Execution::new(
        1,
        "t".to_string(),
        ExecutionCommand::System("surely-no-such-program-here".to_string()),
    );
    let sandbox = Sandbox::new("/tmp/some-box".to_string(), &exec);
    assert_eq!(
        sandbox.build_command(),
        Err("Executable \"surely-no-such-program-here\" not found".to_string())
    );
    assert_eq!(
        sandbox.build_command_with(&vec![], None),
        Err("Executable \"surely-no-such-program-here\" not found".to_string())
    );
}

#[test]
fn the_name_of_a_missing_program_is_quoted_with_escapes() {
    let exec = Execution::new(
        1,
        "t".to_string(),
        ExecutionCommand::System("no \"such\\prog\n".to_string()),
    );
    let sandbox = Sandbox::new("/tmp/some-box".to_string(), &exec);
    assert_eq!(
        sandbox.build_command_with(&vec![], None),
        Err("Executable \"no \\\"such\\\\prog\\n\" not found".to_string())
    );
    assert_eq!(
        sandbox.build_command_with(&vec![], None),
        Err(format!("Executable {:?} not found", "no \"such\\prog\n"))
    );
}

#[test]
fn a_command_that_cannot_be_built_is_a_failed_run() {
    let exec = Execution::new(
        1,
        "t".to_string(),
        ExecutionCommand::System("surely-no-such-program-here".to_string()),
    );
    let sandbox = Sandbox::new("/tmp/some-box".to_string(), &exec);
    match sandbox.command_or_failure() {
        Err(SandboxResult::Failed { error }) => {
            assert_eq!(error, "Executable \"surely-no-such-program-here\" not found")
        }
        other => panic!("unexpected {:?}", other),
    }
    match Sandbox::start_or_failure(Err("why".to_string())) {
        Err(SandboxResult::Failed { error }) => assert_eq!(error, "why"),
        other => panic!("unexpected {:?}", other),
    }
    match Sandbox::start_or_failure(Ok(vec!["--".to_string(), "x".to_string()])) {
        Ok(args) => assert_eq!(args, vec!["--".to_string(), "x".to_string()]),
        other => panic!("unexpected {:?}", other),
    }
    let local = Execution::new(2, "t".to_string(), ExecutionCommand::Local("prog".to_string()));
    let sandbox = Sandbox::new("/tmp/some-box".to_string(), &local);
    let args = sandbox.command_or_failure().unwrap();
    assert_eq!(args, sandbox.build_command().unwrap());
    let at = args.iter().position(|a| a == "--").unwrap();
    assert_eq!(args[at + 1], "prog");
}

#[test]
fn seconds_are_written_without_trailing_zeros() {
    assert_eq!(write_seconds(0), "0");
    assert_eq!(write_seconds(10000), "10");
    assert_eq!(write_seconds(3600), "3.6");
    assert_eq!(write_seconds(1050), "1.05");
    assert_eq!(write_seconds(1005), "1.005");
    assert_eq!(write_seconds(7), "0.007");
    assert_eq!(write_seconds(500), "0.5");
    assert_eq!(write_seconds(123456), "123.456");
}

#[test]
fn paths_are_joined_with_one_separator() {
    assert_eq!(join_path("/a/b", "c"), "/a/b/c");
    assert_eq!(join_path("/a/b/", "c"), "/a/b/c");
    assert_eq!(join_path("/a/b", "/c"), "/c");
    assert_eq!(join_path("", "c"), "c");
    assert_eq!(join_path("/", "c"), "/c");
    assert_eq!(join_path("a", ""), "a/");
    for (base, part) in [("/a/b", "c"), ("/a/b/", "c/d"), ("/a", "/c"), ("", "c"), ("x", "")] {
        assert_eq!(
            join_path(base, part),
            std::path::Path::new(base).join(part).to_string_lossy().to_string()
        );
    }
}

#[test]
fn sandbox_paths() {
    let exec = Execution::new(1, "t".to_string(), ExecutionCommand::System("true".to_string()));
    let mut sandbox = Sandbox::new("/tmp/sb".to_string(), &exec);
    assert_eq!(sandbox.stdout_path(), "/tmp/sb/stdout");
    assert_eq!(sandbox.stderr_path(), "/tmp/sb/stderr");
    assert_eq!(sandbox.output_path("fooo"), "/tmp/sb/box/fooo");
    assert_eq!(sandbox.clean_up(), CleanUp::Remove);
    sandbox.keep();
    assert_eq!(sandbox.clean_up(), CleanUp::Keep);
}

fn step_text(step: &SetupStep) -> String {
    match step {
        SetupStep::CreateDir(path) => format!("mkdir {}", path),
        SetupStep::Copy { source, dest, mode } => format!("copy {} {} {:o}", source, dest, mode),
        SetupStep::Touch { path, mode } => format!("touch {} {:o}", path, mode),
        SetupStep::SetPermissions { path, mode } => format!("chmod {} {:o}", path, mode),
    }
}

#[test]
fn setup_lists_the_steps_in_order() {
    let mut exec = Execution::new(1, "t".to_string(), ExecutionCommand::System("true".to_string()));
    exec.stdin = Some(10);
    exec.stdout = Some(11);
    exec.stderr = Some(12);
    exec.inputs.push(ExecutionInput { path: "in/a".to_string(), file: 20, executable: false });
    exec.inputs.push(ExecutionInput { path: "prog".to_string(), file: 21, executable: true });
    exec.outputs.push(ExecutionOutput { path: "out".to_string(), file: 30 });
    exec.limits.read_only = true;
    let sandbox = Sandbox::new("/sb".to_string(), &exec);
    let deps = vec![
        DepPath { file: 10, path: "/store/10".to_string() },
        DepPath { file: 20, path: "/store/20".to_string() },
        DepPath { file: 21, path: "/store/21".to_string() },
    ];
    let steps: Vec<String> = sandbox.setup(&deps).unwrap().iter().map(step_text).collect();
    assert_eq!(
        steps,
        vec![
            "mkdir /sb/box",
            "copy /store/10 /sb/stdin 400",
            "touch /sb/stdout 600",
            "touch /sb/stderr 600",
            "copy /store/20 /sb/box/in/a 400",
            "copy /store/21 /sb/box/prog 500",
            "touch /sb/box/out 600",
            "chmod /sb/box 500",
        ]
    );
    let fewer = vec![DepPath { file: 10, path: "/store/10".to_string() }];
    assert_eq!(sandbox.setup(&fewer).err(), Some(20));
    assert_eq!(sandbox.setup(&vec![]).err(), Some(10));
}

fn outcome() -> TMBoxResult {
    TMBoxResult {
        error: false,
        message: None,
        cpu_time: Some(1_000),
        sys_time: Some(2_000),
        wall_time: Some(3_000),
        memory_usage: Some(42),
        status_code: Some(1),
        signal: Some(0),
        killed_by_sandbox: Some(false),
    }
}

#[test]
fn run_reads_the_outcome() {
    let exec = Execution::new(1, "t".to_string(), ExecutionCommand::System("true".to_string()));
    let sandbox = Sandbox::new("/sb".to_string(), &exec);
    match sandbox.run(outcome()) {
        SandboxResult::Success { exit_status, signal, resources, was_killed } => {
            assert_eq!(exit_status, 1);
            assert_eq!(signal, None);
            assert_eq!(
                resources,
                ExecutionResourcesUsage { cpu_time: 1_000, sys_time: 2_000, wall_time: 3_000, memory: 42 }
            );
            assert!(!was_killed);
        }
        other => panic!("unexpected {:?}", other),
    }
    let mut signalled = outcome();
    signalled.signal = Some(11);
    signalled.killed_by_sandbox = Some(true);
    match sandbox.run(signalled) {
        SandboxResult::Success { signal, was_killed, .. } => {
            assert_eq!(signal, Some(11));
            assert!(was_killed);
        }
        other => panic!("unexpected {:?}", other),
    }
    let mut failed = outcome();
    failed.error = true;
    failed.message = Some("boom".to_string());
    match sandbox.run(failed) {
        SandboxResult::Failed { error } => assert_eq!(error, "boom"),
        other => panic!("unexpected {:?}", other),
    }
    let mut silent = outcome();
    silent.error = true;
    match sandbox.run(silent) {
        SandboxResult::Failed { error } => assert_eq!(error, "No output from sandbox"),
        other => panic!("unexpected {:?}", other),
    }
    let mut partial = outcome();
    partial.memory_usage = None;
    assert!(!partial.is_whole());
    assert!(sandbox.try_run(partial).is_none());
    assert!(sandbox.try_run(outcome()).is_some());
}

#[test]
fn the_command_is_noted_with_quoted_arguments() {
    assert_eq!(command_note(&vec![]), "tmbox \n");
    assert_eq!(command_note(&vec!["--".to_string()]), "tmbox \"--\"\n");
    let args = vec!["--env".to_string(), "a=b c".to_string(), "say \"hi\"".to_string()];
    assert_eq!(command_note(&args), "tmbox \"--env\" \"a=b c\" \"say \\\"hi\\\"\"\n");
    let quoted: Vec<String> = args.iter().map(|s| format!("{:?}", s)).collect();
    assert_eq!(command_note(&args), format!("tmbox {}\n", quoted.join(" ")));
}
