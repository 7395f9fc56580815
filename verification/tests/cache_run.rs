use std::collections::HashMap;
use task_maker_exec::cache::Cache;
use task_maker_exec::dag::{
    Execution, ExecutionCommand, ExecutionDAGData, ExecutionDAGWatchSet, FileKey,
};
use task_maker_exec::executor::{wait_for_work, worker_thread, Executor, ExecutorAction, WorkerConn};
use task_maker_exec::proto::{
    ExecutionResourcesUsage, ExecutorClientMessage, ExecutorServerMessage, Received,
    WorkerClientMessage, WorkerServerMessage,
};
use task_maker_exec::sandbox::SandboxResult;
use task_maker_exec::worker::{Worker, WorkerAction};

/// What the client was told during one evaluation, and how often a
/// sandbox ran.
#[derive(Default)]
struct Run {
    started: Vec<u128>,
    done: Vec<(u128, String)>,
    keys: HashMap<u128, FileKey>,
    finished: bool,
    sandboxes: usize,
}

fn note(run: &mut Run, actions: Vec<ExecutorAction>) {
    for action in actions {
        match action {
            ExecutorAction::Tell(ExecutorServerMessage::NotifyStart(e, _)) => run.started.push(e),
            ExecutorAction::Tell(ExecutorServerMessage::NotifyDone(e, result)) => {
                run.done.push((e, format!("{:?}", result.status)))
            }
            ExecutorAction::Tell(ExecutorServerMessage::Done(outcomes)) => {
                for outcome in outcomes {
                    assert!(outcome.success);
                    run.keys.insert(outcome.file, outcome.key);
                }
                run.finished = true;
            }
            _ => {}
        }
    }
}

/// Evaluates four independent executions with two workers.
fn evaluate(executor: &mut Executor, cache: &mut Cache, now: u64) -> Run {
    let mut dag = ExecutionDAGData::new();
    for uuid in 1..=4u128 {
        let mut execution = Execution::new(
            uuid,
            format!("number {}", uuid),
            ExecutionCommand::System("true".to_string()),
        );
        execution.args = vec![uuid.to_string()];
        execution.stdout = Some(100 + uuid);
        dag.add_execution(execution);
    }
    let mut run = Run::default();
    let step = executor.evaluate(
        Received::Message(ExecutorClientMessage::Evaluate {
            dag,
            callbacks: ExecutionDAGWatchSet {
                executions: vec![1, 2, 3, 4],
                files: vec![101, 102, 103, 104],
            },
        }),
        &vec![],
        now,
    );
    note(&mut run, step.actions);

    let mut workers: Vec<(WorkerConn, Worker)> = (1..=2u128)
        .map(|n| {
            let name = format!("worker {}", n);
            (WorkerConn { uuid: n, name: name.clone() }, Worker::new(n, name))
        })
        .collect();
    let mut pending: Vec<(usize, WorkerAction)> = Vec::new();
    for (at, (_, worker)) in workers.iter_mut().enumerate() {
        pending.extend(worker.connect().actions.into_iter().map(|a| (at, a)));
    }
    let mut rounds = 0;
    while !run.finished {
        rounds += 1;
        assert!(rounds < 100, "the evaluation does not end");
        for (at, action) in std::mem::take(&mut pending) {
            let (conn, worker) = &mut workers[at];
            match action {
                WorkerAction::Send(message) => {
                    let asked = matches!(message, WorkerClientMessage::GetWork);
                    let step = worker_thread(executor, conn, Received::Message(message), now);
                    note(&mut run, step.actions);
                    if !asked {
                        continue;
                    }
                }
                WorkerAction::Run => {
                    run.sandboxes += 1;
                    let job = worker.job.as_ref().unwrap().execution.uuid;
                    let step = worker.on_sandbox_done(
                        SandboxResult::Success {
                            exit_status: 0,
                            signal: None,
                            resources: ExecutionResourcesUsage {
                                cpu_time: 1,
                                sys_time: 1,
                                wall_time: 1,
                                memory: 1,
                            },
                            was_killed: false,
                        },
                        String::new(),
                        vec![format!("output of {}", job).into_bytes()],
                        &mut executor.store,
                        cache,
                    );
                    pending.extend(step.actions.into_iter().map(|a| (at, a)));
                }
            }
        }
        // Each worker that waits takes the job that it was given, if any.
        for (at, (conn, worker)) in workers.iter_mut().enumerate() {
            if pending.iter().any(|(who, _)| *who == at) {
                continue;
            }
            if let Some(work) = wait_for_work(executor, &conn.uuid) {
                let step = worker.on_message(
                    Received::Message(WorkerServerMessage::Work(work)),
                    cache,
                    &vec![],
                );
                pending.extend(step.actions.into_iter().map(|a| (at, a)));
            }
        }
    }
    run
}

#[test]
fn a_second_evaluation_runs_no_sandbox() {
    let mut executor = Executor::new();
    let mut cache = Cache::new();
    let first = evaluate(&mut executor, &mut cache, 0);
    assert_eq!(first.sandboxes, 4);
    let second = evaluate(&mut executor, &mut cache, 1000);
    assert_eq!(second.sandboxes, 0);

    for run in [&first, &second] {
        let mut started = run.started.clone();
        started.sort();
        assert_eq!(started, vec![1, 2, 3, 4]);
        let mut done = run.done.clone();
        done.sort();
        assert_eq!(
            done,
            (1..=4u128).map(|e| (e, "Success".to_string())).collect::<Vec<_>>()
        );
        assert_eq!(run.keys.len(), 4);
    }
    assert_eq!(first.done.len(), second.done.len());
    assert_eq!(first.keys, second.keys);
    assert_eq!(cache.entries.len(), 4);
}
