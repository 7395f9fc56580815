use task_maker_exec::client::{
    ClientAction, ExecutionCallbacks, ExecutorClient, FileCallbacks, WriteToCallback,
};
use task_maker_exec::dag::{
    Execution, ExecutionCommand, ExecutionDAGData, ExecutionDAGWatchSet, ExecutionOutput, FileKey,
    ProvidedFile,
};
use task_maker_exec::executor::{
    wait_for_work, worker_thread, Executor, ExecutorAction, Flow, Step, WorkerConn,
};
use task_maker_exec::proto::{
    ExecutionResult, ExecutionStatus, ExecutorClientMessage, ExecutorServerMessage, Received,
    WorkerClientMessage, WorkerOutput,
};
use task_maker_exec::scheduler::ExecutionState;
use task_maker_exec::store::key_of;

fn system(uuid: u128, description: &str, name: &str) -> Execution {
    Execution::new(uuid, description.to_string(), ExecutionCommand::System(name.to_string()))
}

fn worker(uuid: u128) -> WorkerConn {
    WorkerConn { uuid, name: format!("worker {}", uuid) }
}

fn success() -> ExecutionResult {
    ExecutionResult { status: ExecutionStatus::Success, resources: None }
}

fn failure(code: u32) -> ExecutionResult {
    ExecutionResult { status: ExecutionStatus::ReturnCode(code), resources: None }
}

/// What the client saw and did during an evaluation.
#[derive(Default)]
struct Seen {
    started: Vec<u128>,
    done: Vec<(u128, bool)>,
    skipped: Vec<u128>,
    written: Vec<String>,
    contents: Vec<(u128, Vec<u8>)>,
    failed: Vec<String>,
    finished: bool,
    sent: Vec<ExecutorClientMessage>,
}

/// Hands what the executor wants told to the client, and returns what the
/// client wants sent to the executor.
fn deliver(step: Step, client: &mut ExecutorClient, executor: &Executor, seen: &mut Seen) {
    for action in step.actions {
        let message = match action {
            ExecutorAction::Tell(message) => message,
            _ => continue,
        };
        if let ExecutorServerMessage::Done(_) = &message {
            seen.finished = true;
        }
        let answer = client.evaluate(Received::Message(message), &vec![], &executor.store);
        for action in answer.actions {
            match action {
                ClientAction::Send(message) => seen.sent.push(message),
                ClientAction::FireStart { execution, .. } => seen.started.push(execution),
                ClientAction::FireDone { execution, result, .. } => {
                    seen.done.push((execution, result.is_success()))
                }
                ClientAction::FireSkip { execution, .. } => seen.skipped.push(execution),
                ClientAction::Deliver { file, plan, .. } => {
                    if let Some(path) = plan.write_to {
                        seen.written.push(path);
                    }
                    if let Some(content) = plan.content {
                        seen.contents.push((file, content));
                    }
                }
                ClientAction::Failed(message) => seen.failed.push(message),
                _ => {}
            }
        }
    }
}

fn watch_all(uuid: u128) -> ExecutionCallbacks {
    ExecutionCallbacks { execution: uuid, on_start: 1, on_done: 1, on_skip: 1 }
}

fn write_to(file: u128, dest: &str) -> FileCallbacks {
    FileCallbacks {
        file,
        write_to: Some(WriteToCallback {
            dest: dest.to_string(),
            executable: false,
            allow_failure: false,
        }),
        get_content: None,
    }
}

/// Lets the worker `conn` ask for work and returns the execution it got.
fn get_work(
    executor: &mut Executor,
    conn: &WorkerConn,
    client: &mut ExecutorClient,
    seen: &mut Seen,
    now: u64,
) -> Option<u128> {
    let step = worker_thread(executor, conn, Received::Message(WorkerClientMessage::GetWork), now);
    assert_eq!(step.flow, Flow::GoOn);
    deliver(step, client, executor, seen);
    wait_for_work(executor, &conn.uuid).map(|work| work.execution.uuid)
}

/// Lets the worker `conn` end its job with `result` and the output
/// contents `outputs`.
fn finish(
    executor: &mut Executor,
    conn: &WorkerConn,
    result: ExecutionResult,
    outputs: Vec<(&str, u128, &[u8])>,
    client: &mut ExecutorClient,
    seen: &mut Seen,
    now: u64,
) {
    let outputs = outputs
        .into_iter()
        .map(|(path, file, bytes)| WorkerOutput {
            path: path.to_string(),
            file,
            key: executor.store.insert(bytes.to_vec()),
        })
        .collect();
    let step = worker_thread(
        executor,
        conn,
        Received::Message(WorkerClientMessage::WorkerDone(result, outputs)),
        now,
    );
    deliver(step, client, executor, seen);
}

#[test]
fn test_local_evaluation() {
    let input_key = key_of(&vec![]);
    let mut dag = ExecutionDAGData::new();
    let (file, stdout, stdout2, output3) = (100, 101, 102, 103);

    let mut exec = system(1, "An execution", "true");
    exec.stdin = Some(file);
    exec.stdout = Some(stdout);

    let mut exec2 = system(2, "Nope!", "false");
    exec2.stdin = Some(stdout);
    exec2.stdout = Some(stdout2);

    let mut exec3 = system(3, "Skippp", "true");
    exec3.stdin = Some(stdout2);
    exec3.outputs.push(ExecutionOutput { path: "test".to_string(), file: output3 });

    assert!(dag.provide_file(ProvidedFile::LocalFile {
        file,
        key: input_key,
        local_path: "/dev/null".to_string(),
    }));
    dag.add_execution(exec);
    dag.add_execution(exec2);
    dag.add_execution(exec3);

    let mut client = ExecutorClient::new(
        &dag,
        vec![watch_all(1), watch_all(2), watch_all(3)],
        vec![
            write_to(stdout, "/cwd/stdout"),
            write_to(stdout2, "/cwd/stdout2"),
            write_to(output3, "/cwd/output3"),
        ],
    );
    let mut executor = Executor::new();
    let mut seen = Seen::default();
    let (w1, w2) = (worker(1001), worker(1002));

    // The client starts: nothing is wanted of the supplied file, so the
    // graph is all that it sends.
    let first = client.start(dag, &vec![vec![]]).unwrap();
    assert_eq!(first.flow, Flow::GoOn);
    assert_eq!(first.actions.len(), 1);
    let evaluate = match first.actions.into_iter().next().unwrap() {
        ClientAction::Send(message) => message,
        other => panic!("unexpected {:?}", other),
    };
    match &evaluate {
        ExecutorClientMessage::Evaluate { callbacks, .. } => {
            assert_eq!(callbacks.executions, vec![1, 2, 3]);
            assert_eq!(callbacks.files, vec![stdout, stdout2, output3]);
        }
        other => panic!("unexpected {:?}", other),
    }
    let step = executor.evaluate(Received::Message(evaluate), &vec![], 0);
    assert_eq!(step.flow, Flow::GoOn);
    deliver(step, &mut client, &executor, &mut seen);

    // The executor asked for the input file, and the client announces it.
    assert_eq!(seen.sent.len(), 1);
    match seen.sent.remove(0) {
        ExecutorClientMessage::ProvideFile(uuid, key) => {
            assert_eq!((uuid, key), (file, input_key));
            let step = executor.evaluate(
                Received::Message(ExecutorClientMessage::ProvideFile(uuid, key)),
                &vec![vec![]],
                1,
            );
            assert_eq!(step.flow, Flow::GoOn);
            deliver(step, &mut client, &executor, &mut seen);
        }
        other => panic!("unexpected {:?}", other),
    }

    assert_eq!(get_work(&mut executor, &w1, &mut client, &mut seen, 2), Some(1));
    assert_eq!(get_work(&mut executor, &w2, &mut client, &mut seen, 2), None);
    finish(&mut executor, &w1, success(), vec![("stdout", stdout, b"")], &mut client, &mut seen, 3);
    // The second worker was waiting: it got the second execution at once.
    assert_eq!(wait_for_work(&executor, &w2.uuid).map(|w| w.execution.uuid), Some(2));
    assert_eq!(get_work(&mut executor, &w1, &mut client, &mut seen, 4), None);
    finish(
        &mut executor,
        &w2,
        failure(1),
        vec![("stdout", stdout2, b"nope")],
        &mut client,
        &mut seen,
        5,
    );

    assert!(seen.finished);
    let exec_done = seen.done.contains(&(1, true));
    let exec_start = seen.started.contains(&1);
    let exec2_done = seen.done.contains(&(2, false));
    let exec2_start = seen.started.contains(&2);
    let exec3_skipped = seen.skipped.contains(&3);
    assert!(exec_done);
    assert!(exec_start);
    assert!(exec2_done);
    assert!(exec2_start);
    assert!(exec3_skipped);
    assert!(!seen.skipped.contains(&1), "exec has been skipped");
    assert!(!seen.skipped.contains(&2), "exec2 has been skipped");
    assert!(!seen.started.contains(&3), "exec3 has not been skipped");
    assert!(seen.done.iter().all(|(e, _)| *e != 3), "exec3 has not been skipped");
    assert!(seen.written.contains(&"/cwd/stdout".to_string()));
    assert!(!seen.written.contains(&"/cwd/stdout2".to_string()));
    assert!(!seen.written.contains(&"/cwd/output3".to_string()));

    assert_eq!(seen.done.len(), 2);
    assert_eq!(seen.skipped, vec![3]);
    assert_eq!(executor.data.status.get(&1), Some(&ExecutionState::Succeeded));
    assert_eq!(executor.data.status.get(&2), Some(&ExecutionState::Failed));
    assert_eq!(executor.data.status.get(&3), Some(&ExecutionState::Skipped));
    assert!(!executor.data.evaluating);
    assert!(executor.data.is_complete());
}

#[test]
fn four_independent_executions_on_two_workers() {
    let mut dag = ExecutionDAGData::new();
    for uuid in 1..=4u128 {
        dag.add_execution(system(uuid, "independent", "true"));
    }
    let mut client =
        ExecutorClient::new(&dag, (1..=4).map(watch_all).collect(), vec![]);
    let mut executor = Executor::new();
    let mut seen = Seen::default();
    let (w1, w2) = (worker(1), worker(2));
    let callbacks = client.watch_set();
    let step = executor.evaluate(
        Received::Message(ExecutorClientMessage::Evaluate { dag, callbacks }),
        &vec![],
        0,
    );
    deliver(step, &mut client, &executor, &mut seen);

    // Executions are served from the greatest identifier down.
    assert_eq!(get_work(&mut executor, &w1, &mut client, &mut seen, 1), Some(4));
    assert_eq!(get_work(&mut executor, &w2, &mut client, &mut seen, 1), Some(3));
    // Two executions run together before any has ended.
    assert_eq!(seen.started, vec![4, 3]);
    assert!(seen.done.is_empty());
    finish(&mut executor, &w1, success(), vec![], &mut client, &mut seen, 2);
    finish(&mut executor, &w2, success(), vec![], &mut client, &mut seen, 2);
    assert!(!seen.finished);
    assert_eq!(get_work(&mut executor, &w2, &mut client, &mut seen, 3), Some(2));
    assert_eq!(get_work(&mut executor, &w1, &mut client, &mut seen, 3), Some(1));
    finish(&mut executor, &w1, success(), vec![], &mut client, &mut seen, 4);
    assert!(!seen.finished);
    finish(&mut executor, &w2, success(), vec![], &mut client, &mut seen, 4);
    assert!(seen.finished);
    assert_eq!(seen.started, vec![4, 3, 2, 1]);
    let mut done = seen.done.clone();
    done.sort();
    assert_eq!(done, vec![(1, true), (2, true), (3, true), (4, true)]);
    assert!(seen.skipped.is_empty());
}

fn only_error(step: &Step) -> String {
    assert_eq!(step.actions.len(), 1);
    match &step.actions[0] {
        ExecutorAction::Tell(ExecutorServerMessage::Error(message)) => message.clone(),
        other => panic!("unexpected {:?}", other),
    }
}

#[test]
fn missing_dependency_is_refused() {
    let mut dag = ExecutionDAGData::new();
    let mut e1 = system(1, "needs a file", "true");
    e1.stdin = Some(77);
    dag.add_execution(e1);
    let mut executor = Executor::new();
    let step = executor.evaluate(
        Received::Message(ExecutorClientMessage::Evaluate {
            dag,
            callbacks: ExecutionDAGWatchSet { executions: vec![1], files: vec![] },
        }),
        &vec![],
        0,
    );
    assert_eq!(step.flow, Flow::Stop);
    let message = only_error(&step);
    assert!(message.contains("missing dependency"));
    assert!(message.contains("77"));
    assert!(!executor.data.evaluating);
}

#[test]
fn cycle_is_refused() {
    let mut dag = ExecutionDAGData::new();
    let mut e1 = system(1, "one", "true");
    let mut e2 = system(2, "two", "true");
    e1.stdout = Some(11);
    e2.stdout = Some(12);
    e1.stdin = Some(12);
    e2.stdin = Some(11);
    dag.add_execution(e1);
    dag.add_execution(e2);
    let mut executor = Executor::new();
    let step = executor.evaluate(
        Received::Message(ExecutorClientMessage::Evaluate {
            dag,
            callbacks: ExecutionDAGWatchSet { executions: vec![], files: vec![] },
        }),
        &vec![],
        0,
    );
    assert_eq!(step.flow, Flow::Stop);
    assert!(only_error(&step).contains("cycle"));
}

fn long_evaluation() -> (Executor, WorkerConn) {
    let mut dag = ExecutionDAGData::new();
    dag.add_execution(system(1, "a long one", "sleep"));
    let mut second = system(2, "after it", "true");
    second.stdin = Some(50);
    let mut first = system(3, "before it", "true");
    first.stdout = Some(50);
    dag.add_execution(second);
    dag.add_execution(first);
    dag.add_execution(system(4, "another", "true"));
    let mut executor = Executor::new();
    executor.evaluate(
        Received::Message(ExecutorClientMessage::Evaluate {
            dag,
            callbacks: ExecutionDAGWatchSet { executions: vec![], files: vec![] },
        }),
        &vec![],
        100,
    );
    let conn = worker(9);
    worker_thread(&mut executor, &conn, Received::Message(WorkerClientMessage::GetWork), 100);
    (executor, conn)
}

#[test]
fn status_names_the_running_execution() {
    let (mut executor, conn) = long_evaluation();
    let step = executor.evaluate(Received::Message(ExecutorClientMessage::Status), &vec![], 350);
    assert_eq!(step.flow, Flow::GoOn);
    assert_eq!(step.actions.len(), 1);
    match &step.actions[0] {
        ExecutorAction::Tell(ExecutorServerMessage::Status(status)) => {
            assert_eq!(status.connected_workers.len(), 1);
            let one = &status.connected_workers[0];
            assert_eq!(one.uuid, conn.uuid);
            assert_eq!(one.name, "worker 9");
            assert_eq!(one.current_job, Some(("another".to_string(), 250)));
            assert_eq!(status.ready_execs, 2);
            assert_eq!(status.waiting_execs, 1);
        }
        other => panic!("unexpected {:?}", other),
    }
}

#[test]
fn scheduling_twice_changes_nothing() {
    let (mut executor, _) = long_evaluation();
    let before = format!("{:?}", executor.data.ready_execs);
    let workers = format!("{:?}", executor.data.waiting_workers);
    let again = executor.data.schedule(500);
    assert!(again.is_empty());
    assert_eq!(format!("{:?}", executor.data.ready_execs), before);
    assert_eq!(format!("{:?}", executor.data.waiting_workers), workers);
}

#[test]
fn a_worker_that_goes_gives_its_job_back() {
    let (mut executor, conn) = long_evaluation();
    assert_eq!(executor.data.status.get(&4), Some(&ExecutionState::Running));
    let step = worker_thread(&mut executor, &conn, Received::Closed, 200);
    assert_eq!(step.flow, Flow::Stop);
    assert_eq!(executor.data.status.get(&4), Some(&ExecutionState::Ready));
    assert!(executor.data.waiting_workers.is_empty());
    let other = worker(10);
    worker_thread(&mut executor, &other, Received::Message(WorkerClientMessage::GetWork), 300);
    assert_eq!(wait_for_work(&executor, &other.uuid).map(|w| w.execution.uuid), Some(4));
}

#[test]
fn a_file_with_the_wrong_key_ends_the_evaluation() {
    let mut dag = ExecutionDAGData::new();
    let key = key_of(&b"right".to_vec());
    assert!(dag.provide_file(ProvidedFile::Content { file: 5, key, content: b"right".to_vec() }));
    let mut e1 = system(1, "reads", "true");
    e1.stdin = Some(5);
    dag.add_execution(e1);
    let mut executor = Executor::new();
    let step = executor.evaluate(
        Received::Message(ExecutorClientMessage::Evaluate {
            dag,
            callbacks: ExecutionDAGWatchSet { executions: vec![], files: vec![] },
        }),
        &vec![],
        0,
    );
    assert!(matches!(
        step.actions[0],
        ExecutorAction::Tell(ExecutorServerMessage::AskFile(5))
    ));
    let step = executor.evaluate(
        Received::Message(ExecutorClientMessage::ProvideFile(5, key)),
        &vec![b"wr".to_vec(), b"ong".to_vec()],
        1,
    );
    assert_eq!(step.flow, Flow::Stop);
    assert!(only_error(&step).contains("announced key"));
    assert!(!executor.data.evaluating);
    assert!(executor.data.file_keys.is_empty());
    assert!(executor.store.contains(key_of(&b"wrong".to_vec())));
}

#[test]
fn a_file_with_the_right_key_is_taken() {
    let mut dag = ExecutionDAGData::new();
    let key = key_of(&b"right".to_vec());
    assert!(dag.provide_file(ProvidedFile::Content { file: 5, key, content: b"right".to_vec() }));
    let mut e1 = system(1, "reads", "true");
    e1.stdin = Some(5);
    dag.add_execution(e1);
    let mut executor = Executor::new();
    executor.evaluate(
        Received::Message(ExecutorClientMessage::Evaluate {
            dag,
            callbacks: ExecutionDAGWatchSet { executions: vec![], files: vec![] },
        }),
        &vec![],
        0,
    );
    assert_eq!(executor.data.status.get(&1), Some(&ExecutionState::Waiting));
    let step = executor.evaluate(
        Received::Message(ExecutorClientMessage::ProvideFile(5, key)),
        &vec![b"ri".to_vec(), b"ght".to_vec()],
        1,
    );
    assert_eq!(step.flow, Flow::GoOn);
    assert_eq!(executor.data.file_keys.get(&5), Some(&key));
    assert_eq!(executor.data.status.get(&1), Some(&ExecutionState::Ready));
    assert_eq!(executor.store.get(key), Some(&b"right".to_vec()));
    // A second evaluation finds the content in the store and asks for nothing.
    let mut dag = ExecutionDAGData::new();
    assert!(dag.provide_file(ProvidedFile::Content { file: 6, key, content: b"right".to_vec() }));
    let mut e2 = system(2, "reads", "true");
    e2.stdin = Some(6);
    dag.add_execution(e2);
    let step = executor.evaluate(
        Received::Message(ExecutorClientMessage::Evaluate {
            dag,
            callbacks: ExecutionDAGWatchSet { executions: vec![], files: vec![] },
        }),
        &vec![],
        2,
    );
    assert!(step.actions.is_empty());
    assert_eq!(executor.data.status.get(&2), Some(&ExecutionState::Ready));
}

#[test]
fn a_success_without_its_outputs_is_a_failure() {
    let mut dag = ExecutionDAGData::new();
    let mut e1 = system(1, "writes", "true");
    e1.stdout = Some(11);
    let mut e2 = system(2, "reads", "true");
    e2.stdin = Some(11);
    dag.add_execution(e1);
    dag.add_execution(e2);
    let mut executor = Executor::new();
    executor.evaluate(
        Received::Message(ExecutorClientMessage::Evaluate {
            dag,
            callbacks: ExecutionDAGWatchSet { executions: vec![1, 2], files: vec![] },
        }),
        &vec![],
        0,
    );
    let conn = worker(1);
    worker_thread(&mut executor, &conn, Received::Message(WorkerClientMessage::GetWork), 1);
    let step = worker_thread(
        &mut executor,
        &conn,
        Received::Message(WorkerClientMessage::WorkerDone(success(), vec![])),
        2,
    );
    assert_eq!(step.skipped, vec![2]);
    match &step.actions[0] {
        ExecutorAction::Tell(ExecutorServerMessage::NotifyDone(1, result)) => {
            assert!(matches!(result.status, ExecutionStatus::InternalError(_)));
        }
        other => panic!("unexpected {:?}", other),
    }
    assert!(matches!(step.actions[1], ExecutorAction::Tell(ExecutorServerMessage::NotifySkip(2))));
    assert!(matches!(step.actions[2], ExecutorAction::Tell(ExecutorServerMessage::Done(_))));
    assert_eq!(executor.data.status.get(&1), Some(&ExecutionState::Failed));
}

#[test]
fn priorities_go_before_identifiers() {
    let mut dag = ExecutionDAGData::new();
    let mut low = system(9, "low", "true");
    low.priority = Some(1);
    let mut high = system(2, "high", "true");
    high.priority = Some(5);
    dag.add_execution(system(7, "none", "true"));
    dag.add_execution(low);
    dag.add_execution(high);
    let mut executor = Executor::new();
    executor.evaluate(
        Received::Message(ExecutorClientMessage::Evaluate {
            dag,
            callbacks: ExecutionDAGWatchSet { executions: vec![], files: vec![] },
        }),
        &vec![],
        0,
    );
    let mut order = vec![];
    for uuid in 1..=3u128 {
        let conn = worker(uuid);
        worker_thread(&mut executor, &conn, Received::Message(WorkerClientMessage::GetWork), 1);
        order.push(wait_for_work(&executor, &conn.uuid).unwrap().execution.uuid);
    }
    assert_eq!(order, vec![2, 9, 7]);
}

#[test]
fn stop_and_closed_channel_end_the_loop() {
    let mut executor = Executor::new();
    let step = executor.evaluate(Received::Message(ExecutorClientMessage::Stop), &vec![], 0);
    assert_eq!(step.flow, Flow::Stop);
    assert!(step.actions.is_empty());
    let step = executor.evaluate(Received::Closed, &vec![], 0);
    assert_eq!(step.flow, Flow::Stop);
    assert!(step.actions.is_empty());
    let step = executor.evaluate(Received::Garbled, &vec![], 0);
    assert_eq!(step.flow, Flow::Stop);
    assert_eq!(only_error(&step), "a message could not be read");
}

#[test]
fn a_file_is_sent_where_the_store_holds_it() {
    let mut executor = Executor::new();
    let key = executor.store.insert(b"content".to_vec());
    let step =
        executor.evaluate(Received::Message(ExecutorClientMessage::AskFile(4, key, true)), &vec![], 0);
    assert_eq!(step.flow, Flow::GoOn);
    assert_eq!(step.actions.len(), 2);
    assert!(matches!(
        step.actions[0],
        ExecutorAction::Tell(ExecutorServerMessage::ProvideFile(4, true))
    ));
    assert!(matches!(step.actions[1], ExecutorAction::Stream(k) if k == key));
    let other = FileKey { hi: 1, lo: 2 };
    let step = executor.evaluate(
        Received::Message(ExecutorClientMessage::AskFile(4, other, true)),
        &vec![],
        0,
    );
    assert_eq!(step.flow, Flow::Stop);
    assert_eq!(only_error(&step), "the content of a file is not in the store");
    assert!(executor.store.contains(key));
}

#[test]
fn a_new_executor_holds_nothing() {
    let executor = Executor::new();
    let data = &executor.data;
    assert!(!data.evaluating);
    assert!(data.dag.executions().is_empty());
    assert!(data.dag.provided_files().is_empty());
    assert!(data.callbacks.executions.is_empty());
    assert!(data.callbacks.files.is_empty());
    assert!(data.status.is_empty());
    assert!(data.waiting_workers.is_empty());
    assert!(data.ready_execs.is_empty());
    assert!(data.missing_deps.is_empty());
    assert!(data.dependents.is_empty());
    assert!(data.file_keys.is_empty());
    assert!(data.outcomes.is_empty());
    assert!(executor.store.keys().is_empty());
}

#[test]
fn giving_up_leaves_nothing_of_the_graph() {
    let (mut executor, _) = long_evaluation();
    assert!(!executor.data.dependents.is_empty() || !executor.data.status.is_empty());
    let step = executor.evaluate(Received::Garbled, &vec![], 0);
    assert_eq!(step.flow, Flow::Stop);
    let data = &executor.data;
    assert!(!data.evaluating);
    assert!(data.dag.executions().is_empty());
    assert!(data.status.is_empty());
    assert!(data.ready_execs.is_empty());
    assert!(data.missing_deps.is_empty());
    assert!(data.dependents.is_empty());
    assert!(data.file_keys.is_empty());
    assert!(data.outcomes.is_empty());
}

#[test]
fn a_failure_skips_all_that_depends_on_it() {
    // 1 -> 2 -> 3 -> 4 <- 5, and 6 on its own; 1 fails.
    let mut dag = ExecutionDAGData::new();
    let mut e1 = system(1, "fails", "false");
    e1.stdout = Some(11);
    let mut e2 = system(2, "second", "true");
    e2.stdin = Some(11);
    e2.stdout = Some(12);
    let mut e3 = system(3, "third", "true");
    e3.stdin = Some(12);
    e3.stdout = Some(13);
    let mut e4 = system(4, "fourth", "true");
    e4.stdin = Some(13);
    e4.inputs.push(task_maker_exec::dag::ExecutionInput {
        path: "other".to_string(),
        file: 15,
        executable: false,
    });
    let mut e5 = system(5, "fifth", "true");
    e5.stdout = Some(15);
    for execution in [e4, e3, e2, e1, e5, system(6, "sixth", "true")] {
        dag.add_execution(execution);
    }
    let mut client = ExecutorClient::new(&dag, (1..=6).map(watch_all).collect(), vec![]);
    let mut executor = Executor::new();
    let mut seen = Seen::default();
    let callbacks = client.watch_set();
    let step = executor.evaluate(
        Received::Message(ExecutorClientMessage::Evaluate { dag, callbacks }),
        &vec![],
        0,
    );
    deliver(step, &mut client, &executor, &mut seen);
    let w = worker(1);
    let mut order = vec![];
    while !seen.finished {
        let job = get_work(&mut executor, &w, &mut client, &mut seen, 1).unwrap();
        order.push(job);
        match job {
            1 => finish(&mut executor, &w, failure(1), vec![("stdout", 11, b"")], &mut client, &mut seen, 2),
            5 => finish(&mut executor, &w, success(), vec![("stdout", 15, b"five")], &mut client, &mut seen, 2),
            _ => finish(&mut executor, &w, success(), vec![], &mut client, &mut seen, 2),
        }
    }
    assert_eq!(order, vec![6, 5, 1]);
    let mut skipped = seen.skipped.clone();
    skipped.sort();
    assert_eq!(skipped, vec![2, 3, 4]);
    let mut done = seen.done.clone();
    done.sort();
    assert_eq!(done, vec![(1, false), (5, true), (6, true)]);
    // Each execution was told to be over once, and only those that ran started.
    assert_eq!(seen.done.len() + seen.skipped.len(), 6);
    let mut started = seen.started.clone();
    started.sort();
    assert_eq!(started, vec![1, 5, 6]);
    for uuid in [2u128, 3, 4] {
        assert_eq!(executor.data.status.get(&uuid), Some(&ExecutionState::Skipped));
    }
    assert!(executor.data.missing_deps.is_empty());
}
