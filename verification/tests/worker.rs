use task_maker_exec::cache::{describe, fingerprint, sort_env, Cache, CachedResult};
use task_maker_exec::dag::{
    EnvVar, Execution, ExecutionCommand, ExecutionInput, ExecutionOutput, FileKey,
};
use task_maker_exec::executor::Flow;
use task_maker_exec::proto::{
    ExecutionResourcesUsage, ExecutionResult, ExecutionStatus, FileDependency, Received, Work,
    WorkerClientMessage, WorkerServerMessage,
};
use task_maker_exec::sandbox::SandboxResult;
use task_maker_exec::store::{key_of, FileStore};
use task_maker_exec::worker::{
    execution_result, is_bypassed, signal_name, stop_name, Worker, WorkerAction, WorkerState,
};

fn job(uuid: u128, out: u128) -> Work {
    let mut execution =
        Execution::new(uuid, "a job".to_string(), ExecutionCommand::System("cat".to_string()));
    execution.stdin = Some(uuid + 1000);
    execution.stdout = Some(out);
    execution.outputs.push(ExecutionOutput { path: "result".to_string(), file: out + 1 });
    execution.tag = Some("evaluation".to_string());
    Work {
        execution,
        dep_keys: vec![FileDependency { file: uuid + 1000, key: key_of(&b"input".to_vec()) }],
    }
}

fn ran(exit_status: u32) -> SandboxResult {
    SandboxResult::Success {
        exit_status,
        signal: None,
        resources: ExecutionResourcesUsage { cpu_time: 10, sys_time: 20, wall_time: 30, memory: 40 },
        was_killed: false,
    }
}

fn sent(action: &WorkerAction) -> &WorkerClientMessage {
    match action {
        WorkerAction::Send(message) => message,
        other => panic!("unexpected {:?}", other),
    }
}

#[test]
fn a_second_run_is_served_from_the_cache() {
    let mut store = FileStore::new();
    let mut cache = Cache::new();
    let mut worker = Worker::new(1, "local".to_string());
    assert_eq!(worker.state, WorkerState::Connecting);
    let step = worker.connect();
    assert!(matches!(sent(&step.actions[0]), WorkerClientMessage::GetWork));
    assert_eq!(worker.state, WorkerState::Waiting);
    assert!(worker.connect().actions.is_empty());

    // The first time, the sandbox runs.
    let step = worker.on_message(
        Received::Message(WorkerServerMessage::Work(job(1, 10))),
        &cache,
        &vec![],
    );
    assert_eq!(step.actions.len(), 1);
    assert!(matches!(step.actions[0], WorkerAction::Run));
    assert_eq!(worker.state, WorkerState::Running);
    let step = worker.on_sandbox_done(
        ran(0),
        String::new(),
        vec![b"out".to_vec(), b"res".to_vec()],
        &mut store,
        &mut cache,
    );
    assert_eq!(worker.state, WorkerState::Waiting);
    let first = match sent(&step.actions[0]) {
        WorkerClientMessage::WorkerDone(result, outputs) => {
            assert!(result.is_success());
            assert_eq!(outputs.len(), 2);
            assert_eq!((outputs[0].path.as_str(), outputs[0].file), ("stdout", 10));
            assert_eq!((outputs[1].path.as_str(), outputs[1].file), ("result", 11));
            assert_eq!(outputs[0].key, key_of(&b"out".to_vec()));
            assert_eq!(outputs[1].key, key_of(&b"res".to_vec()));
            (format!("{:?}", result.status), vec![outputs[0].key, outputs[1].key])
        }
        other => panic!("unexpected {:?}", other),
    };
    assert!(matches!(sent(&step.actions[1]), WorkerClientMessage::GetWork));
    assert!(store.contains(key_of(&b"out".to_vec())));
    assert_eq!(store.get(key_of(&b"res".to_vec())), Some(&b"res".to_vec()));
    assert_eq!(cache.entries.len(), 1);

    // The second time, with other identifiers, no sandbox runs, and the
    // status and the keys are the same.
    let step = worker.on_message(
        Received::Message(WorkerServerMessage::Work(job(2, 20))),
        &cache,
        &vec![],
    );
    assert_eq!(step.actions.len(), 2);
    assert_eq!(worker.state, WorkerState::Waiting);
    match sent(&step.actions[0]) {
        WorkerClientMessage::WorkerDone(result, outputs) => {
            assert_eq!(format!("{:?}", result.status), first.0);
            assert_eq!(vec![outputs[0].key, outputs[1].key], first.1);
            assert_eq!((outputs[0].file, outputs[1].file), (20, 21));
        }
        other => panic!("unexpected {:?}", other),
    }
    assert!(matches!(sent(&step.actions[1]), WorkerClientMessage::GetWork));

    // A bypassed tag runs the sandbox again.
    let step = worker.on_message(
        Received::Message(WorkerServerMessage::Work(job(3, 30))),
        &cache,
        &vec!["evaluation".to_string()],
    );
    assert!(matches!(step.actions[0], WorkerAction::Run));
    assert_eq!(worker.state, WorkerState::Running);
}

#[test]
fn a_failure_is_not_cached() {
    let mut store = FileStore::new();
    let mut cache = Cache::new();
    let mut worker = Worker::new(1, "local".to_string());
    worker.connect();
    worker.on_message(Received::Message(WorkerServerMessage::Work(job(1, 10))), &cache, &vec![]);
    let step = worker.on_sandbox_done(
        ran(3),
        String::new(),
        vec![b"out".to_vec(), b"res".to_vec()],
        &mut store,
        &mut cache,
    );
    match sent(&step.actions[0]) {
        WorkerClientMessage::WorkerDone(result, _) => {
            assert!(matches!(result.status, ExecutionStatus::ReturnCode(3)));
        }
        other => panic!("unexpected {:?}", other),
    }
    assert!(cache.entries.is_empty());
    assert!(!cache.insert(
        key_of(&vec![]),
        CachedResult {
            result: ExecutionResult { status: ExecutionStatus::MemoryLimitExceeded, resources: None },
            outputs: vec![],
        }
    ));
    // With too few contents nothing is reported.
    worker.on_message(Received::Message(WorkerServerMessage::Work(job(1, 10))), &cache, &vec![]);
    let step =
        worker.on_sandbox_done(ran(0), String::new(), vec![b"out".to_vec()], &mut store, &mut cache);
    assert!(step.actions.is_empty());
    assert_eq!(worker.state, WorkerState::Running);
    assert!(worker.job.is_some());
}

#[test]
fn a_closed_channel_ends_the_worker() {
    let cache = Cache::new();
    let mut worker = Worker::new(1, "local".to_string());
    worker.connect();
    let step = worker.on_message(Received::Closed, &cache, &vec![]);
    assert_eq!(step.flow, Flow::Stop);
    assert_eq!(worker.state, WorkerState::Disconnected);
}

#[test]
fn the_cache_gives_back_the_last_result() {
    let mut cache = Cache::new();
    let (a, b) = (FileKey { hi: 1, lo: 1 }, FileKey { hi: 2, lo: 2 });
    let entry = |n: u128| CachedResult {
        result: ExecutionResult { status: ExecutionStatus::Success, resources: None },
        outputs: vec![FileKey { hi: n, lo: n }],
    };
    assert!(cache.get(a).is_none());
    assert!(cache.insert(a, entry(10)));
    assert!(cache.insert(b, entry(20)));
    assert_eq!(cache.get(a).unwrap().outputs, vec![FileKey { hi: 10, lo: 10 }]);
    assert_eq!(cache.get(b).unwrap().outputs, vec![FileKey { hi: 20, lo: 20 }]);
    assert!(cache.insert(a, entry(30)));
    assert_eq!(cache.get(a).unwrap().outputs, vec![FileKey { hi: 30, lo: 30 }]);
    assert_eq!(cache.get(b).unwrap().outputs, vec![FileKey { hi: 20, lo: 20 }]);
}

#[test]
fn the_fingerprint_tells_executions_apart() {
    let base = job(1, 10);
    let print = fingerprint(&base.execution, &base.dep_keys);
    let other = job(2, 20);
    assert_eq!(fingerprint(&other.execution, &other.dep_keys), print);

    let mut env_a = job(1, 10);
    env_a.execution.env = vec![
        EnvVar { name: "B".to_string(), value: "2".to_string() },
        EnvVar { name: "A".to_string(), value: "1".to_string() },
    ];
    let mut env_b = job(1, 10);
    env_b.execution.env = vec![
        EnvVar { name: "A".to_string(), value: "1".to_string() },
        EnvVar { name: "B".to_string(), value: "2".to_string() },
    ];
    let with_env = fingerprint(&env_a.execution, &env_a.dep_keys);
    assert_eq!(fingerprint(&env_b.execution, &env_b.dep_keys), with_env);
    assert_ne!(with_env, print);

    let mut args = job(1, 10);
    args.execution.args.push("-x".to_string());
    assert_ne!(fingerprint(&args.execution, &args.dep_keys), print);

    let mut key = job(1, 10);
    key.dep_keys[0].key = key_of(&b"other input".to_vec());
    assert_ne!(fingerprint(&key.execution, &key.dep_keys), print);

    let mut limit = job(1, 10);
    limit.execution.limits.memory = Some(5);
    assert_ne!(fingerprint(&limit.execution, &limit.dep_keys), print);

    let mut tag = job(1, 10);
    tag.execution.tag = None;
    assert_ne!(fingerprint(&tag.execution, &tag.dep_keys), print);
    assert_eq!(print, key_of(&describe(&base.execution, &base.dep_keys).into_bytes()));
}

#[test]
fn the_description_is_exact() {
    let mut execution =
        Execution::new(1, "d".to_string(), ExecutionCommand::Local("run.sh".to_string()));
    execution.args = vec!["a".to_string(), "bc".to_string()];
    execution.env = vec![EnvVar { name: "K".to_string(), value: "v".to_string() }];
    execution.inputs.push(ExecutionInput { path: "in".to_string(), file: 9, executable: true });
    execution.limits.cpu_time = Some(1500);
    let keys = vec![FileDependency { file: 9, key: FileKey { hi: 3, lo: 4 } }];
    assert_eq!(
        describe(&execution, &keys),
        "L6:run.sh2;1:a2:bc1;1:K1:v-1;2:in=3;4;1000;+1500;---+1;000;0;-"
    );
}

#[test]
fn variables_are_sorted_by_name() {
    let var = |n: &str, v: &str| EnvVar { name: n.to_string(), value: v.to_string() };
    let sorted = sort_env(&vec![var("b", "1"), var("a", "2"), var("b", "3"), var("", "4"), var("ab", "5")]);
    let names: Vec<(String, String)> = sorted.into_iter().map(|v| (v.name, v.value)).collect();
    let expect = |n: &str, v: &str| (n.to_string(), v.to_string());
    assert_eq!(
        names,
        vec![expect("", "4"), expect("a", "2"), expect("ab", "5"), expect("b", "1"), expect("b", "3")]
    );
}

#[test]
fn the_status_follows_the_limits() {
    let mut execution =
        Execution::new(1, "d".to_string(), ExecutionCommand::System("true".to_string()));
    execution.limits.cpu_time = Some(1);
    execution.limits.memory = Some(100);
    let used = |cpu_time, memory| ExecutionResourcesUsage { cpu_time, sys_time: 0, wall_time: 0, memory };
    let status = |exit_status, signal, resources| {
        execution_result(
            &execution,
            SandboxResult::Success { exit_status, signal, resources, was_killed: false },
            "SIGSEGV".to_string(),
        )
        .status
    };
    assert!(matches!(status(0, None, used(1000, 100)), ExecutionStatus::Success));
    assert!(matches!(status(0, None, used(1001, 100)), ExecutionStatus::TimeLimitExceeded));
    assert!(matches!(status(0, None, used(1000, 101)), ExecutionStatus::MemoryLimitExceeded));
    assert!(matches!(status(2, None, used(0, 0)), ExecutionStatus::ReturnCode(2)));
    match status(0, Some(11), used(0, 0)) {
        ExecutionStatus::Signal(11, name) => assert_eq!(name, "SIGSEGV"),
        other => panic!("unexpected {:?}", other),
    }
    let failed = execution_result(
        &execution,
        SandboxResult::Failed { error: "no box".to_string() },
        String::new(),
    );
    assert!(matches!(failed.status, ExecutionStatus::InternalError(m) if m == "no box"));
    assert_eq!(failed.resources, None);
    assert!(is_bypassed(&vec!["x".to_string()], &Some("x".to_string())));
    assert!(!is_bypassed(&vec!["x".to_string()], &Some("y".to_string())));
    assert!(!is_bypassed(&vec!["x".to_string()], &None));
}

#[test]
fn what_the_store_held_stays_when_a_worker_reports() {
    let mut store = FileStore::new();
    let before = store.insert(b"kept".to_vec());
    let mut cache = Cache::new();
    let mut worker = Worker::new(7, "w".to_string());
    worker.connect();

    // A worker without a job leaves the store as it is.
    let step =
        worker.on_sandbox_done(ran(0), String::new(), vec![b"x".to_vec()], &mut store, &mut cache);
    assert!(step.actions.is_empty());
    assert_eq!(store.keys(), vec![before]);

    worker.on_message(Received::Message(WorkerServerMessage::Work(job(1, 10))), &cache, &vec![]);
    let contents = vec![b"out".to_vec(), b"kept".to_vec()];
    let step = worker.on_sandbox_done(ran(0), String::new(), contents, &mut store, &mut cache);
    assert_eq!(step.actions.len(), 2);
    assert_eq!(store.get(before), Some(&b"kept".to_vec()));
    assert_eq!(store.get(key_of(&b"out".to_vec())), Some(&b"out".to_vec()));
    let mut keys = store.keys();
    keys.sort_by_key(|k| (k.hi, k.lo));
    let mut expected = vec![before, key_of(&b"out".to_vec())];
    expected.sort_by_key(|k| (k.hi, k.lo));
    assert_eq!(keys, expected);
}

#[test]
fn signals_have_names() {
    assert_eq!(signal_name(11), "SIGSEGV");
    assert_eq!(signal_name(9), "SIGKILL");
    assert_eq!(signal_name(1), "SIGHUP");
    assert_eq!(signal_name(25), "SIGXFSZ");
    assert_eq!(signal_name(5), "unknown signal");
    assert_eq!(signal_name(0), "unknown signal");
    assert_eq!(stop_name(&ran(0)), "");
    assert_eq!(stop_name(&SandboxResult::Failed { error: "e".to_string() }), "");
    let stopped = SandboxResult::Success {
        exit_status: 0,
        signal: Some(15),
        resources: ExecutionResourcesUsage { cpu_time: 0, sys_time: 0, wall_time: 0, memory: 0 },
        was_killed: false,
    };
    assert_eq!(stop_name(&stopped), "SIGTERM");
}
