//! The state of the scheduler and what keeps it together.

use crate::dag::{
    Execution, ExecutionDAGData, ExecutionDAGWatchSet, ExecutionUuid, FileKey, FileUuid,
    WorkerUuid,
};
use crate::proto::FileOutcome;
use crate::queue::{enqueue, in_service_order, occurrences, queued, ReadyExec};
use std::collections::HashMap;
use vstd::prelude::*;

verus! {

broadcast use vstd::std_specs::hash::group_hash_axioms;

/// Where an execution stands.
#[derive(Clone, Copy, Debug, PartialEq, Eq, Structural)]
pub enum ExecutionState {
    /// Some file that it needs is not there yet.
    Waiting,
    /// It can start as soon as a worker is free.
    Ready,
    /// A worker runs it.
    Running,
    /// It ran and returned zero.
    Succeeded,
    /// It ran and did not return zero, or could not be run.
    Failed,
    /// It will not run: something that it needs will never be there.
    Skipped,
}

impl ExecutionState {
    /// Whether the execution is over.
    pub open spec fn terminal(self) -> bool {
        self is Succeeded || self is Failed || self is Skipped
    }

    /// Whether the files of the execution will never be there.
    pub open spec fn doomed(self) -> bool {
        self is Failed || self is Skipped
    }

    /// Whether the execution has, or had, all the files that it needs.
    pub open spec fn supplied(self) -> bool {
        self is Ready || self is Running || self is Succeeded || self is Failed
    }
}

/// A worker that asked for work, and the job it got.
#[derive(Clone, Debug)]
pub struct WorkerSlot {
    /// The worker.
    pub worker: WorkerUuid,
    /// The name that the worker gave.
    pub name: String,
    /// The execution that the worker runs, if it has one.
    pub job: Option<ExecutionUuid>,
    /// When the worker got the job, in milliseconds.
    pub since: u64,
}

/// The state of the scheduler.
#[derive(Debug)]
pub struct ExecutorData {
    /// The graph that is evaluated; empty between evaluations.
    pub dag: ExecutionDAGData,
    /// What the client watches.
    pub callbacks: ExecutionDAGWatchSet,
    /// Whether an evaluation goes on.
    pub evaluating: bool,
    /// Where each execution of the graph stands.
    pub status: HashMap<ExecutionUuid, ExecutionState>,
    /// The workers that asked for work, in the order in which they asked.
    pub waiting_workers: Vec<WorkerSlot>,
    /// The executions that can start; the last one is the next.
    pub ready_execs: Vec<ReadyExec>,
    /// For each execution that waits, how many of its files are missing.
    pub missing_deps: HashMap<ExecutionUuid, usize>,
    /// For each file, the executions that need it, once for each use.
    pub dependents: HashMap<FileUuid, Vec<ExecutionUuid>>,
    /// The keys of the files that are there.
    pub file_keys: HashMap<FileUuid, FileKey>,
    /// The watched files that workers sent, in the order in which they came.
    pub outcomes: Vec<FileOutcome>,
}

/// How many of `needs` are not in `ready`, each use counted.
pub open spec fn unready(needs: Seq<FileUuid>, ready: Set<FileUuid>) -> nat
    decreases needs.len(),
{
    if needs.len() == 0 {
        0
    } else {
        unready(needs.drop_last(), ready) + if ready.contains(needs.last()) {
            0nat
        } else {
            1nat
        }
    }
}

/// How often the executions named `uuid` need the file `file`.
pub open spec fn wanted(execs: Seq<Execution>, uuid: ExecutionUuid, file: FileUuid) -> nat
    decreases execs.len(),
{
    if execs.len() == 0 {
        0
    } else {
        wanted(execs.drop_last(), uuid, file) + if execs.last().uuid == uuid {
            occurrences(execs.last().needs(), file)
        } else {
            0nat
        }
    }
}

/// The executions listed under `file` in an index of dependents.
pub open spec fn waiters_of(index: Map<FileUuid, Vec<ExecutionUuid>>, file: FileUuid) -> Seq<
    ExecutionUuid,
> {
    if index.contains_key(file) {
        index[file]@
    } else {
        Seq::empty()
    }
}

/// Whether no worker is listed twice in `workers`.
pub open spec fn distinct_workers(workers: Seq<WorkerSlot>) -> bool {
    forall|a: int, b: int|
        0 <= a < b < workers.len() ==> (#[trigger] workers[a]).worker != (
        #[trigger] workers[b]).worker
}

/// Whether no two of `workers` have the same job.
pub open spec fn distinct_jobs(workers: Seq<WorkerSlot>) -> bool {
    forall|a: int, b: int|
        0 <= a < b < workers.len() && (#[trigger] workers[a]).job is Some ==> workers[a].job != (
        #[trigger] workers[b]).job
}

/// Whether one of `workers` has the execution `uuid` as its job.
pub open spec fn assigned(workers: Seq<WorkerSlot>, uuid: ExecutionUuid) -> bool {
    exists|k: int| 0 <= k < workers.len() && (#[trigger] workers[k]).job == Some(uuid)
}

/// Whether `uuid` has the state `state` in `status`.
pub open spec fn stands(
    status: Map<ExecutionUuid, ExecutionState>,
    uuid: ExecutionUuid,
    state: ExecutionState,
) -> bool {
    status.contains_key(uuid) && status[uuid] == state
}

/// The place of the execution `uuid` in `execs`; meaningful where it is
/// there.
pub open spec fn place_of(execs: Seq<Execution>, uuid: ExecutionUuid) -> int {
    choose|i: int| 0 <= i < execs.len() && (#[trigger] execs[i]).uuid == uuid
}

/// Whether the executions of the graph, and nothing else, have a state.
#[verifier::opaque]
pub open spec fn cover_ok(dag: &ExecutionDAGData, status: Map<ExecutionUuid, ExecutionState>) -> bool {
    forall|e: ExecutionUuid| #[trigger] status.contains_key(e) <==> dag.has_execution(e)
}

/// Whether the counts of missing files are right: an execution waits
/// while some file that it needs is missing, and only then.
#[verifier::opaque]
pub open spec fn counts_ok(
    dag: &ExecutionDAGData,
    status: Map<ExecutionUuid, ExecutionState>,
    missing: Map<ExecutionUuid, usize>,
    ready: Set<FileUuid>,
) -> bool {
    &&& forall|e: ExecutionUuid| #[trigger]
        missing.contains_key(e) <==> stands(status, e, ExecutionState::Waiting)
    &&& forall|i: int|
        0 <= i < dag.execs().len() && status[(#[trigger] dag.execs()[i]).uuid] is Waiting
            ==> unready(dag.execs()[i].needs(), ready) > 0 && missing[dag.execs()[i].uuid]
            == unready(dag.execs()[i].needs(), ready)
    &&& forall|i: int|
        0 <= i < dag.execs().len() && status[(#[trigger] dag.execs()[i]).uuid].supplied()
            ==> unready(dag.execs()[i].needs(), ready) == 0
}

/// Whether the queue holds the executions that can start, in service
/// order, each with its priority.
#[verifier::opaque]
pub open spec fn queue_ok(
    dag: &ExecutionDAGData,
    status: Map<ExecutionUuid, ExecutionState>,
    queue: Seq<ReadyExec>,
) -> bool {
    &&& in_service_order(queue)
    &&& forall|e: ExecutionUuid| #[trigger]
        queued(queue, e) <==> stands(status, e, ExecutionState::Ready)
    &&& forall|e: ReadyExec| #[trigger]
        queue.contains(e) ==> e.priority == dag.execs()[place_of(dag.execs(), e.uuid)].priority
}

/// Whether the jobs of the workers are the executions that run, each
/// with one worker, and no worker is listed twice.
#[verifier::opaque]
pub open spec fn workers_ok(
    status: Map<ExecutionUuid, ExecutionState>,
    workers: Seq<WorkerSlot>,
) -> bool {
    &&& distinct_workers(workers)
    &&& distinct_jobs(workers)
    &&& forall|e: ExecutionUuid| #[trigger]
        assigned(workers, e) <==> stands(status, e, ExecutionState::Running)
}

/// Whether the index of dependents lists, for each file, the executions
/// that need it, once for each use.
#[verifier::opaque]
pub open spec fn index_ok(dag: &ExecutionDAGData, index: Map<FileUuid, Vec<ExecutionUuid>>) -> bool {
    forall|f: FileUuid, u: ExecutionUuid| #[trigger]
        occurrences(waiters_of(index, f), u) == wanted(dag.execs(), u, f)
}

/// Whether each file that is there was supplied, or made by an execution
/// that returned zero.
#[verifier::opaque]
pub open spec fn keys_ok(
    dag: &ExecutionDAGData,
    status: Map<ExecutionUuid, ExecutionState>,
    ready: Set<FileUuid>,
) -> bool {
    forall|f: FileUuid| #[trigger]
        ready.contains(f) ==> dag.provided_uuids().contains(f) || exists|i: int|
            0 <= i < dag.execs().len() && (#[trigger] dag.execs()[i]).makes().contains(f)
                && status[dag.execs()[i].uuid] is Succeeded
}

/// Whether each skipped execution needs a file of an execution that
/// failed or was skipped.
#[verifier::opaque]
pub open spec fn skips_ok(dag: &ExecutionDAGData, status: Map<ExecutionUuid, ExecutionState>) -> bool {
    forall|v: int|
        0 <= v < dag.execs().len() && status[(#[trigger] dag.execs()[v]).uuid] is Skipped
            ==> exists|u: int|
            0 <= u < dag.execs().len() && #[trigger] dag.feeds(u, v)
                && status[dag.execs()[u].uuid].doomed()
}

/// Whether each execution that needs a file of an execution that failed
/// or was skipped is skipped.
#[verifier::opaque]
pub open spec fn settled_ok(
    dag: &ExecutionDAGData,
    status: Map<ExecutionUuid, ExecutionState>,
) -> bool {
    forall|u: int, v: int|
        0 <= u < dag.execs().len() && 0 <= v < dag.execs().len() && #[trigger] dag.feeds(u, v)
            && status[dag.execs()[u].uuid].doomed() ==> status[dag.execs()[v].uuid] is Skipped
}

impl ExecutorData {
    /// The executions of the graph.
    pub open spec fn execs(&self) -> Seq<Execution> {
        self.dag.execs()
    }

    /// Where the `i`-th execution of the graph stands.
    pub open spec fn state(&self, i: int) -> ExecutionState {
        self.status@[self.execs()[i].uuid]
    }

    /// The files that are there.
    pub open spec fn ready_files(&self) -> Set<FileUuid> {
        self.file_keys@.dom()
    }

    /// The executions that need `file`, once for each use.
    pub open spec fn waiters(&self, file: FileUuid) -> Seq<ExecutionUuid> {
        waiters_of(self.dependents@, file)
    }

    /// What holds of the state at every moment: the graph is valid, and
    /// the states, counts, queue, jobs, index and keys agree with it.
    pub open spec fn coherent(&self) -> bool {
        &&& self.dag.wf()
        &&& self.dag.valid()
        &&& self.dag.knows(&self.callbacks)
        &&& cover_ok(&self.dag, self.status@)
        &&& counts_ok(&self.dag, self.status@, self.missing_deps@, self.ready_files())
        &&& queue_ok(&self.dag, self.status@, self.ready_execs@)
        &&& workers_ok(self.status@, self.waiting_workers@)
        &&& index_ok(&self.dag, self.dependents@)
        &&& keys_ok(&self.dag, self.status@, self.ready_files())
        &&& skips_ok(&self.dag, self.status@)
    }

    /// What holds of the state between two operations: besides the above,
    /// what depends on an execution that failed or was skipped is skipped.
    pub open spec fn wf(&self) -> bool {
        self.coherent() && settled_ok(&self.dag, self.status@)
    }

    /// Whether nothing is left to do: no execution waits, can start or
    /// runs.
    pub open spec fn complete(&self) -> bool {
        &&& self.missing_deps@.len() == 0
        &&& self.ready_execs@.len() == 0
        &&& forall|k: int|
            0 <= k < self.waiting_workers@.len() ==> (#[trigger] self.waiting_workers@[k]).job is None
    }
}

/// The slots of `workers` without a job, in their order.
pub open spec fn idle_slots(workers: Seq<WorkerSlot>) -> Seq<WorkerSlot>
    decreases workers.len(),
{
    if workers.len() == 0 {
        Seq::empty()
    } else if workers.last().job is None {
        idle_slots(workers.drop_last()).push(workers.last())
    } else {
        idle_slots(workers.drop_last())
    }
}

/// The idle slots are slots without a job, in the order of the workers.
pub proof fn lemma_idle_slots(workers: Seq<WorkerSlot>)
    ensures
        idle_slots(workers).len() <= workers.len(),
        forall|k: int|
            0 <= k < idle_slots(workers).len() ==> (#[trigger] idle_slots(workers)[k]).job is None,
        forall|a: int, b: int|
            0 <= a < b < idle_slots(workers).len() ==> exists|c: int, d: int|
                0 <= c < d < workers.len() && workers[c] == #[trigger] idle_slots(workers)[a]
                    && workers[d] == #[trigger] idle_slots(workers)[b],
        forall|a: int|
            0 <= a < idle_slots(workers).len() ==> exists|c: int|
                0 <= c < workers.len() && workers[c] == #[trigger] idle_slots(workers)[a],
    decreases workers.len(),
{
    if workers.len() > 0 {
        let front = workers.drop_last();
        lemma_idle_slots(front);
        let idle = idle_slots(workers);
        assert forall|a: int| 0 <= a < idle.len() implies exists|c: int|
            0 <= c < workers.len() && workers[c] == #[trigger] idle[a] by {
            if a < idle_slots(front).len() {
                let c = choose|c: int| 0 <= c < front.len() && front[c] == idle_slots(front)[a];
                assert(workers[c] == idle[a]);
            } else {
                assert(workers[workers.len() - 1] == idle[a]);
            }
        }
        assert forall|a: int, b: int| 0 <= a < b < idle.len() implies exists|c: int, d: int|
            0 <= c < d < workers.len() && workers[c] == #[trigger] idle[a] && workers[d]
                == #[trigger] idle[b] by {
            if b < idle_slots(front).len() {
                let (c, d) = choose|c: int, d: int|
                    0 <= c < d < front.len() && front[c] == idle_slots(front)[a] && front[d]
                        == idle_slots(front)[b];
                assert(workers[c] == idle[a] && workers[d] == idle[b]);
            } else {
                let c = choose|c: int| 0 <= c < front.len() && front[c] == idle_slots(front)[a];
                assert(workers[c] == idle[a] && workers[workers.len() - 1] == idle[b]);
            }
        }
    }
}

/// Where no file is there, every use of a file is missing.
pub proof fn lemma_unready_none(needs: Seq<FileUuid>)
    ensures
        unready(needs, Set::empty()) == needs.len(),
    decreases needs.len(),
{
    if needs.len() > 0 {
        lemma_unready_none(needs.drop_last());
    }
}

/// Among executions with distinct identifiers, the uses of a file under
/// an identifier are those of the execution that has it.
pub proof fn lemma_wanted(execs: Seq<Execution>, uuid: ExecutionUuid, file: FileUuid)
    requires
        crate::dag::distinct_executions(execs),
    ensures
        forall|i: int|
            0 <= i < execs.len() && (#[trigger] execs[i]).uuid == uuid ==> wanted(
                execs,
                uuid,
                file,
            ) == occurrences(execs[i].needs(), file),
        (forall|i: int| 0 <= i < execs.len() ==> (#[trigger] execs[i]).uuid != uuid) ==> wanted(
            execs,
            uuid,
            file,
        ) == 0,
    decreases execs.len(),
{
    if execs.len() > 0 {
        let front = execs.drop_last();
        assert(crate::dag::distinct_executions(front)) by {
            assert forall|i: int, j: int|
                0 <= i < front.len() && 0 <= j < front.len() && (#[trigger] front[i]).uuid == (
                #[trigger] front[j]).uuid implies i == j by {
                assert(execs[i].uuid == execs[j].uuid);
            }
        }
        lemma_wanted(front, uuid, file);
        if execs.last().uuid == uuid {
            assert forall|i: int| 0 <= i < front.len() implies (#[trigger] front[i]).uuid
                != uuid by {
                assert(execs[i].uuid != execs[execs.len() - 1].uuid);
            }
        } else {
            assert forall|i: int| 0 <= i < execs.len() && (#[trigger] execs[i]).uuid
                == uuid implies wanted(execs, uuid, file) == occurrences(
                execs[i].needs(),
                file,
            ) by {
                assert(front[i].uuid == uuid);
            }
        }
        if forall|i: int| 0 <= i < execs.len() ==> (#[trigger] execs[i]).uuid != uuid {
            assert forall|i: int| 0 <= i < front.len() implies (#[trigger] front[i]).uuid
                != uuid by {
                assert(execs[i].uuid != uuid);
            }
        }
    }
}

/// Lists `uuid` once more under `file`.
fn add_waiter(
    index: &mut HashMap<FileUuid, Vec<ExecutionUuid>>,
    file: FileUuid,
    uuid: ExecutionUuid,
)
    ensures
        waiters_of(final(index)@, file) == waiters_of(old(index)@, file).push(uuid),
        forall|f: FileUuid| f != file ==> waiters_of(final(index)@, f) == waiters_of(old(index)@, f),
{
    let mut list: Vec<ExecutionUuid> = match index.remove(&file) {
        Some(list) => list,
        None => Vec::new(),
    };
    list.push(uuid);
    index.insert(file, list);
}

/// The idle slots of distinct workers are distinct, and have no job.
pub proof fn lemma_idle_distinct(workers: Seq<WorkerSlot>)
    requires
        distinct_workers(workers),
    ensures
        distinct_workers(idle_slots(workers)),
        forall|k: int|
            0 <= k < idle_slots(workers).len() ==> (#[trigger] idle_slots(workers)[k]).job is None,
{
    lemma_idle_slots(workers);
    let idle = idle_slots(workers);
    assert forall|a: int, b: int| 0 <= a < b < idle.len() implies (#[trigger] idle[a]).worker != (
    #[trigger] idle[b]).worker by {
        let (c, d) = choose|c: int, d: int|
            0 <= c < d < workers.len() && workers[c] == idle[a] && workers[d] == idle[b];
        assert(workers[c].worker != workers[d].worker);
    }
}

/// The slots of `workers` that have no job.
fn idle_workers(workers: &Vec<WorkerSlot>) -> (idle: Vec<WorkerSlot>)
    ensures
        idle@ == idle_slots(workers@),
{
    let mut idle: Vec<WorkerSlot> = Vec::new();
    let mut w: usize = 0;
    while w < workers.len()
        invariant
            w <= workers@.len(),
            idle@ == idle_slots(workers@.take(w as int)),
        decreases workers@.len() - w,
    {
        let slot = &workers[w];
        assert(workers@.take(w + 1).drop_last() == workers@.take(w as int));
        if slot.job.is_none() {
            idle.push(
                WorkerSlot {
                    worker: slot.worker,
                    name: slot.name.clone(),
                    job: None,
                    since: slot.since,
                },
            );
        }
        w += 1;
    }
    assert(workers@.take(w as int) == workers@);
    idle
}

/// Lists `uuid` under each file of `needs`, once for each use.
fn list_dependent(
    index: &mut HashMap<FileUuid, Vec<ExecutionUuid>>,
    uuid: ExecutionUuid,
    needs: &Vec<FileUuid>,
)
    ensures
        forall|f: FileUuid, u: ExecutionUuid| #[trigger]
            occurrences(waiters_of(final(index)@, f), u) == occurrences(
                waiters_of(old(index)@, f),
                u,
            ) + if u == uuid {
                occurrences(needs@, f)
            } else {
                0nat
            },
{
    let mut k: usize = 0;
    while k < needs.len()
        invariant
            k <= needs@.len(),
            forall|f: FileUuid, u: ExecutionUuid| #[trigger]
                occurrences(waiters_of(index@, f), u) == occurrences(waiters_of(old(index)@, f), u)
                    + if u == uuid {
                    occurrences(needs@.take(k as int), f)
                } else {
                    0nat
                },
        decreases needs@.len() - k,
    {
        let ghost before = index@;
        add_waiter(index, needs[k], uuid);
        proof {
            assert(needs@.take(k + 1) == needs@.take(k as int).push(needs@[k as int]));
            assert forall|f: FileUuid, u: ExecutionUuid| #[trigger]
                occurrences(waiters_of(index@, f), u) == occurrences(waiters_of(old(index)@, f), u)
                    + if u == uuid {
                    occurrences(needs@.take(k + 1), f)
                } else {
                    0nat
                } by {
                crate::queue::lemma_occurrences_push(needs@.take(k as int), needs@[k as int], f);
                crate::queue::lemma_occurrences_push(
                    waiters_of(before, needs@[k as int]),
                    uuid,
                    u,
                );
                assert(occurrences(waiters_of(before, f), u) == occurrences(
                    waiters_of(old(index)@, f),
                    u,
                ) + if u == uuid {
                    occurrences(needs@.take(k as int), f)
                } else {
                    0nat
                });
            }
        }
        k += 1;
    }
    assert(needs@.take(k as int) == needs@);
}

/// In a graph, an execution stands where its identifier is found.
pub proof fn lemma_place(dag: &ExecutionDAGData, i: int)
    requires
        dag.wf(),
        0 <= i < dag.execs().len(),
    ensures
        place_of(dag.execs(), dag.execs()[i].uuid) == i,
        dag.has_execution(dag.execs()[i].uuid),
{
    let at = place_of(dag.execs(), dag.execs()[i].uuid);
    assert(dag.execs()[at].uuid == dag.execs()[i].uuid);
}

/// Whether, in `status`, each execution of `dag` waits or, where it needs
/// no file, can start.
pub open spec fn starting(dag: &ExecutionDAGData, status: Map<ExecutionUuid, ExecutionState>) -> bool {
    forall|i: int|
        0 <= i < dag.execs().len() ==> status[(#[trigger] dag.execs()[i]).uuid] == if dag.execs()[i].needs().len()
            == 0 {
            ExecutionState::Ready
        } else {
            ExecutionState::Waiting
        }
}

/// The states, counts, index and queue with which the evaluation of `dag`
/// starts.
fn plan_start(dag: &ExecutionDAGData) -> (plan: (
    HashMap<ExecutionUuid, ExecutionState>,
    HashMap<ExecutionUuid, usize>,
    HashMap<FileUuid, Vec<ExecutionUuid>>,
    Vec<ReadyExec>,
))
    ensures
        dag.wf(),
        starting(dag, plan.0@),
        cover_ok(dag, plan.0@),
        counts_ok(dag, plan.0@, plan.1@, Set::empty()),
        index_ok(dag, plan.2@),
        queue_ok(dag, plan.0@, plan.3@),
{
    let mut status: HashMap<ExecutionUuid, ExecutionState> = HashMap::new();
    let mut missing: HashMap<ExecutionUuid, usize> = HashMap::new();
    let mut index: HashMap<FileUuid, Vec<ExecutionUuid>> = HashMap::new();
    let mut ready: Vec<ReadyExec> = Vec::new();
    let execs = dag.executions();
    let mut i: usize = 0;
    while i < execs.len()
        invariant
            i <= execs@.len(),
            execs@ == dag.execs(),
            dag.wf(),
            forall|e: ExecutionUuid| #[trigger]
                status@.contains_key(e) <==> exists|j: int|
                    0 <= j < i && (#[trigger] execs@[j]).uuid == e,
            forall|j: int|
                0 <= j < i ==> status@[(#[trigger] execs@[j]).uuid] == if execs@[j].needs().len()
                    == 0 {
                    ExecutionState::Ready
                } else {
                    ExecutionState::Waiting
                },
            forall|e: ExecutionUuid| #[trigger]
                missing@.contains_key(e) <==> stands(status@, e, ExecutionState::Waiting),
            forall|j: int|
                0 <= j < i && (#[trigger] execs@[j]).needs().len() > 0 ==> missing@[execs@[j].uuid]
                    == execs@[j].needs().len(),
            in_service_order(ready@),
            forall|e: ExecutionUuid| #[trigger]
                queued(ready@, e) <==> stands(status@, e, ExecutionState::Ready),
            forall|e: ReadyExec| #[trigger]
                ready@.contains(e) ==> e.priority == execs@[place_of(execs@, e.uuid)].priority,
            forall|f: FileUuid, u: ExecutionUuid| #[trigger]
                occurrences(waiters_of(index@, f), u) == wanted(execs@.take(i as int), u, f),
        decreases execs@.len() - i,
    {
        let uuid = execs[i].uuid;
        let needs = execs[i].dependencies();
        proof {
            lemma_place(dag, i as int);
        }
        assert(forall|j: int| 0 <= j < i ==> (#[trigger] execs@[j]).uuid != uuid);
        assert(!status@.contains_key(uuid));
        if needs.len() == 0 {
            status.insert(uuid, ExecutionState::Ready);
            enqueue(&mut ready, ReadyExec { priority: execs[i].priority, uuid });
        } else {
            status.insert(uuid, ExecutionState::Waiting);
            missing.insert(uuid, needs.len());
        }
        list_dependent(&mut index, uuid, &needs);
        proof {
            assert(execs@.take(i + 1).drop_last() == execs@.take(i as int));
        }
        i += 1;
    }
    proof {
        assert(execs@.take(i as int) == execs@);
        reveal(cover_ok);
        reveal(counts_ok);
        reveal(index_ok);
        reveal(queue_ok);
        assert forall|i: int| 0 <= i < dag.execs().len() implies unready(
            (#[trigger] dag.execs()[i]).needs(),
            Set::empty(),
        ) == dag.execs()[i].needs().len() by {
            lemma_unready_none(dag.execs()[i].needs());
        }
    }
    (status, missing, index, ready)
}

/// Where every execution waits or can start, and no worker has a job,
/// the jobs and the keys agree with the states, and nothing is skipped.
pub proof fn lemma_starting(
    dag: &ExecutionDAGData,
    status: Map<ExecutionUuid, ExecutionState>,
    workers: Seq<WorkerSlot>,
)
    requires
        starting(dag, status),
        cover_ok(dag, status),
        dag.wf(),
        distinct_workers(workers),
        forall|k: int| 0 <= k < workers.len() ==> (#[trigger] workers[k]).job is None,
    ensures
        workers_ok(status, workers),
        keys_ok(dag, status, Set::empty()),
        skips_ok(dag, status),
        settled_ok(dag, status),
{
    reveal(cover_ok);
    reveal(workers_ok);
    reveal(keys_ok);
    reveal(skips_ok);
    reveal(settled_ok);
    assert forall|e: ExecutionUuid| #[trigger]
        assigned(workers, e) <==> stands(status, e, ExecutionState::Running) by {
        if stands(status, e, ExecutionState::Running) {
            let i = choose|i: int| 0 <= i < dag.execs().len() && (#[trigger] dag.execs()[i]).uuid == e;
            assert(status[dag.execs()[i].uuid] is Running);
        }
    }
}

impl ExecutorData {
    /// Whether the state holds no graph: no execution and no supplied
    /// file, nothing watched, no evaluation going on, and nothing in
    /// the queue, the counts, the index of dependents, the keys and
    /// the list of the files that came.
    pub open spec fn is_empty(&self) -> bool {
        &&& !self.evaluating
        &&& self.execs().len() == 0
        &&& self.dag.provided().len() == 0
        &&& self.callbacks.executions@.len() == 0
        &&& self.callbacks.files@.len() == 0
        &&& self.status@ == Map::<ExecutionUuid, ExecutionState>::empty()
        &&& self.ready_execs@.len() == 0
        &&& self.missing_deps@ == Map::<ExecutionUuid, usize>::empty()
        &&& self.dependents@ == Map::<FileUuid, Vec<ExecutionUuid>>::empty()
        &&& self.file_keys@ == Map::<FileUuid, FileKey>::empty()
        &&& self.outcomes@.len() == 0
    }

    /// A scheduler with no graph and no worker.
    pub fn new() -> (data: ExecutorData)
        ensures
            data.wf(),
            !data.evaluating,
            data.execs().len() == 0,
            data.is_empty(),
            data.waiting_workers@.len() == 0,
            data.complete(),
    {
        let data = ExecutorData {
            dag: ExecutionDAGData::new(),
            callbacks: ExecutionDAGWatchSet { executions: Vec::new(), files: Vec::new() },
            evaluating: false,
            status: HashMap::new(),
            waiting_workers: Vec::new(),
            ready_execs: Vec::new(),
            missing_deps: HashMap::new(),
            dependents: HashMap::new(),
            file_keys: HashMap::new(),
            outcomes: Vec::new(),
        };
        proof {
            assert(data.dag.sources() == Seq::<FileUuid>::empty());
            assert(data.dag.ranked_by(Seq::<nat>::empty()));
            reveal(cover_ok);
            reveal(counts_ok);
            reveal(index_ok);
            reveal(queue_ok);
            reveal(workers_ok);
            reveal(keys_ok);
            reveal(skips_ok);
            reveal(settled_ok);
        }
        data
    }

    /// Whether the state is the one in which the evaluation of a graph
    /// starts: no file is there, and each execution waits or, where it
    /// needs no file, can start.
    pub open spec fn fresh(&self) -> bool {
        &&& self.evaluating
        &&& self.file_keys@ == Map::<FileUuid, FileKey>::empty()
        &&& self.outcomes@.len() == 0
        &&& starting(&self.dag, self.status@)
    }

    /// Starts the evaluation of `dag`. The workers that have no job stay,
    /// in their order; the others are forgotten.
    pub fn setup(&mut self, dag: ExecutionDAGData, callbacks: ExecutionDAGWatchSet)
        requires
            distinct_workers(old(self).waiting_workers@),
            dag.valid(),
            dag.knows(&callbacks),
        ensures
            final(self).wf(),
            final(self).fresh(),
            final(self).dag == dag,
            final(self).callbacks == callbacks,
            final(self).waiting_workers@ == idle_slots(old(self).waiting_workers@),
    {
        let idle = idle_workers(&self.waiting_workers);
        let plan = plan_start(&dag);
        proof {
            lemma_idle_distinct(self.waiting_workers@);
            lemma_starting(&dag, plan.0@, idle@);
        }
        self.waiting_workers = idle;
        self.status = plan.0;
        self.missing_deps = plan.1;
        self.dependents = plan.2;
        self.ready_execs = plan.3;
        self.file_keys = HashMap::new();
        self.outcomes = Vec::new();
        self.evaluating = true;
        self.callbacks = callbacks;
        self.dag = dag;
        assert(self.ready_files() == Set::<FileUuid>::empty());
    }
}

/// How many missing files are left to the execution `uuid` once the
/// uses listed in `released` came off its count.
pub open spec fn left_over(
    missing: Map<ExecutionUuid, usize>,
    released: Seq<ExecutionUuid>,
    uuid: ExecutionUuid,
) -> int {
    missing[uuid] - occurrences(released, uuid)
}

/// Whether `status1` and `missing1` are `status0` and `missing0` after
/// the uses listed in `released` came off the counts: an execution
/// whose count came down to zero can start, and nothing else changed.
pub open spec fn released_to(
    status0: Map<ExecutionUuid, ExecutionState>,
    missing0: Map<ExecutionUuid, usize>,
    released: Seq<ExecutionUuid>,
    status1: Map<ExecutionUuid, ExecutionState>,
    missing1: Map<ExecutionUuid, usize>,
) -> bool {
    &&& status1.dom() == status0.dom()
    &&& forall|e: ExecutionUuid| #[trigger]
        status0.contains_key(e) ==> if missing0.contains_key(e) {
            if left_over(missing0, released, e) > 0 {
                missing1.contains_key(e) && missing1[e] == left_over(missing0, released, e)
                    && status1[e] is Waiting
            } else {
                !missing1.contains_key(e) && status1[e] is Ready
            }
        } else {
            !missing1.contains_key(e) && status1[e] == status0[e]
        }
    &&& forall|e: ExecutionUuid| #[trigger] missing1.contains_key(e) ==> status0.contains_key(e)
}

/// A part of a list holds no more of an element than the list.
pub proof fn lemma_occurrences_take(s: Seq<u128>, n: int, x: u128)
    requires
        0 <= n <= s.len(),
    ensures
        occurrences(s.take(n), x) <= occurrences(s, x),
    decreases s.len() - n,
{
    if n < s.len() {
        lemma_occurrences_take(s, n + 1, x);
        assert(s.take(n + 1).drop_last() == s.take(n));
    } else {
        assert(s.take(n) == s);
    }
}

/// The queue stays right where an execution that waited goes to its
/// place in it.
pub proof fn lemma_queue_gains(
    dag: &ExecutionDAGData,
    status0: Map<ExecutionUuid, ExecutionState>,
    queue0: Seq<ReadyExec>,
    at: int,
    queue1: Seq<ReadyExec>,
)
    requires
        dag.wf(),
        queue_ok(dag, status0, queue0),
        0 <= at < dag.execs().len(),
        status0.contains_key(dag.execs()[at].uuid),
        !(status0[dag.execs()[at].uuid] is Ready),
        in_service_order(queue1),
        forall|uuid: ExecutionUuid|
            queued(queue1, uuid) <==> (uuid == dag.execs()[at].uuid || queued(queue0, uuid)),
        forall|e: ReadyExec|
            queue1.contains(e) <==> (e == (ReadyExec {
                priority: dag.execs()[at].priority,
                uuid: dag.execs()[at].uuid,
            }) || queue0.contains(e)),
    ensures
        queue_ok(dag, status0.insert(dag.execs()[at].uuid, ExecutionState::Ready), queue1),
{
    reveal(queue_ok);
    lemma_place(dag, at);
    let status1 = status0.insert(dag.execs()[at].uuid, ExecutionState::Ready);
    assert forall|e: ExecutionUuid| #[trigger]
        queued(queue1, e) <==> stands(status1, e, ExecutionState::Ready) by {
        assert(queued(queue0, e) <==> stands(status0, e, ExecutionState::Ready));
    }
}

/// Takes the uses listed in `waiters` off the counts of missing files,
/// and queues the executions whose count comes down to zero.
fn release(
    dag: &ExecutionDAGData,
    status: &mut HashMap<ExecutionUuid, ExecutionState>,
    missing: &mut HashMap<ExecutionUuid, usize>,
    queue: &mut Vec<ReadyExec>,
    waiters: &Vec<ExecutionUuid>,
)
    requires
        cover_ok(dag, old(status)@),
        queue_ok(dag, old(status)@, old(queue)@),
        forall|e: ExecutionUuid| #[trigger]
            old(missing)@.contains_key(e) <==> stands(old(status)@, e, ExecutionState::Waiting),
        forall|e: ExecutionUuid| #[trigger]
            old(missing)@.contains_key(e) ==> 0 < old(missing)@[e] && occurrences(waiters@, e)
                <= old(missing)@[e],
    ensures
        released_to(old(status)@, old(missing)@, waiters@, final(status)@, final(missing)@),
        queue_ok(dag, final(status)@, final(queue)@),
{
    let mut j: usize = 0;
    assert(waiters@.take(0) == Seq::<ExecutionUuid>::empty());
    while j < waiters.len()
        invariant
            j <= waiters@.len(),
            cover_ok(dag, old(status)@),
            forall|e: ExecutionUuid| #[trigger]
                old(missing)@.contains_key(e) <==> stands(old(status)@, e, ExecutionState::Waiting),
            forall|e: ExecutionUuid| #[trigger]
                old(missing)@.contains_key(e) ==> 0 < old(missing)@[e] && occurrences(waiters@, e)
                    <= old(missing)@[e],
            released_to(old(status)@, old(missing)@, waiters@.take(j as int), status@, missing@),
            queue_ok(dag, status@, queue@),
        decreases waiters@.len() - j,
    {
        let uuid = waiters[j];
        let ghost before = waiters@.take(j as int);
        let ghost status0 = status@;
        let ghost missing0 = missing@;
        proof {
            assert(waiters@.take(j + 1) == before.push(uuid));
            assert forall|e: ExecutionUuid|
                occurrences(waiters@.take(j + 1), e) == occurrences(before, e) + if uuid == e {
                    1nat
                } else {
                    0nat
                } by {
                crate::queue::lemma_occurrences_push(before, uuid, e);
            }
            lemma_occurrences_take(waiters@, j + 1, uuid);
        }
        let count = match missing.get(&uuid) {
            Some(count) => Some(*count),
            None => None,
        };
        match count {
            Some(count) => {
                assert(old(status)@.contains_key(uuid)) by {
                    assert(missing0.contains_key(uuid));
                }
                assert(old(missing)@.contains_key(uuid));
                if count == 1 {
                    let at = dag.find_execution(uuid);
                    assert(at is Some) by {
                        reveal(cover_ok);
                        assert(old(status)@.contains_key(uuid));
                        assert(dag.has_execution(uuid));
                    }
                    let at = at.unwrap();
                    missing.remove(&uuid);
                    status.insert(uuid, ExecutionState::Ready);
                    let ghost queue0 = queue@;
                    assert(!queued(queue0, uuid) && in_service_order(queue0)) by {
                        reveal(queue_ok);
                        assert(!stands(status0, uuid, ExecutionState::Ready));
                    }
                    enqueue(
                        queue,
                        ReadyExec { priority: dag.executions()[at].priority, uuid },
                    );
                    proof {
                        lemma_queue_gains(dag, status0, queue0, at as int, queue@);
                        assert(status@.dom() =~= status0.dom());
                    }
                } else {
                    missing.insert(uuid, count - 1);
                }
            },
            None => {},
        }
        j += 1;
    }
    assert(waiters@.take(j as int) == waiters@);
}

/// A file that comes takes its uses off the count of missing files.
pub proof fn lemma_unready_insert(needs: Seq<FileUuid>, ready: Set<FileUuid>, file: FileUuid)
    requires
        !ready.contains(file),
    ensures
        unready(needs, ready.insert(file)) + occurrences(needs, file) == unready(needs, ready),
    decreases needs.len(),
{
    if needs.len() > 0 {
        lemma_unready_insert(needs.drop_last(), ready, file);
    }
}

/// Whether `status1` keeps what is over in `status0`, and ends nothing
/// more: the same executions have a state, and an execution that is
/// over in one is over, in the same way, in the other.
pub open spec fn same_fate(
    status0: Map<ExecutionUuid, ExecutionState>,
    status1: Map<ExecutionUuid, ExecutionState>,
) -> bool {
    &&& status1.dom() == status0.dom()
    &&& forall|e: ExecutionUuid| #[trigger]
        status0.contains_key(e) && (status0[e].terminal() || status1[e].terminal()) ==> status1[e]
            == status0[e]
}

/// Whether the file `file` has a right to be there: the client supplies
/// it, or an execution that returned zero made it.
pub open spec fn sourced(
    dag: &ExecutionDAGData,
    status: Map<ExecutionUuid, ExecutionState>,
    file: FileUuid,
) -> bool {
    dag.provided_uuids().contains(file) || exists|i: int|
        0 <= i < dag.execs().len() && (#[trigger] dag.execs()[i]).makes().contains(file)
            && status[dag.execs()[i].uuid] is Succeeded
}

/// What speaks of the executions that are over holds on where none of
/// them changes.
pub proof fn lemma_same_fate(
    dag: &ExecutionDAGData,
    status0: Map<ExecutionUuid, ExecutionState>,
    status1: Map<ExecutionUuid, ExecutionState>,
    ready: Set<FileUuid>,
)
    requires
        dag.wf(),
        same_fate(status0, status1),
        cover_ok(dag, status0),
    ensures
        cover_ok(dag, status1),
        skips_ok(dag, status0) ==> skips_ok(dag, status1),
        settled_ok(dag, status0) ==> settled_ok(dag, status1),
        keys_ok(dag, status0, ready) ==> keys_ok(dag, status1, ready),
{
    reveal(cover_ok);
    reveal(skips_ok);
    reveal(settled_ok);
    reveal(keys_ok);
    assert forall|i: int| 0 <= i < dag.execs().len() implies status0.contains_key(
        (#[trigger] dag.execs()[i]).uuid,
    ) by {
        lemma_place(dag, i);
    }
    assert(forall|e: ExecutionUuid| status1.contains_key(e) <==> status0.contains_key(e));
    if skips_ok(dag, status0) {
        assert forall|v: int|
            0 <= v < dag.execs().len() && status1[(#[trigger] dag.execs()[v]).uuid] is Skipped implies exists|
            u: int,
        |
            0 <= u < dag.execs().len() && #[trigger] dag.feeds(u, v)
                && status1[dag.execs()[u].uuid].doomed() by {
            assert(status0.contains_key(dag.execs()[v].uuid));
            let u = choose|u: int|
                0 <= u < dag.execs().len() && #[trigger] dag.feeds(u, v)
                    && status0[dag.execs()[u].uuid].doomed();
            assert(status0.contains_key(dag.execs()[u].uuid));
        }
    }
    if settled_ok(dag, status0) {
        assert forall|u: int, v: int|
            0 <= u < dag.execs().len() && 0 <= v < dag.execs().len() && #[trigger] dag.feeds(u, v)
                && status1[dag.execs()[u].uuid].doomed() implies status1[dag.execs()[v].uuid] is Skipped by {
            assert(status0.contains_key(dag.execs()[u].uuid));
            assert(status0.contains_key(dag.execs()[v].uuid));
        }
    }
    if keys_ok(dag, status0, ready) {
        assert forall|f: FileUuid| #[trigger] ready.contains(f) implies sourced(dag, status1, f) by {
            if !dag.provided_uuids().contains(f) {
                let i = choose|i: int|
                    0 <= i < dag.execs().len() && (#[trigger] dag.execs()[i]).makes().contains(f)
                        && status0[dag.execs()[i].uuid] is Succeeded;
                assert(status0.contains_key(dag.execs()[i].uuid));
            }
        }
    }
}

/// A file with a right to be there may be there.
pub proof fn lemma_keys_gain(
    dag: &ExecutionDAGData,
    status: Map<ExecutionUuid, ExecutionState>,
    ready: Set<FileUuid>,
    file: FileUuid,
)
    requires
        keys_ok(dag, status, ready),
        sourced(dag, status, file),
    ensures
        keys_ok(dag, status, ready.insert(file)),
{
    reveal(keys_ok);
}

/// The jobs stay right where the executions that run stay the same.
pub proof fn lemma_same_running(
    status0: Map<ExecutionUuid, ExecutionState>,
    status1: Map<ExecutionUuid, ExecutionState>,
    workers: Seq<WorkerSlot>,
)
    requires
        workers_ok(status0, workers),
        forall|e: ExecutionUuid|
            stands(status0, e, ExecutionState::Running) <==> stands(
                status1,
                e,
                ExecutionState::Running,
            ),
    ensures
        workers_ok(status1, workers),
{
    reveal(workers_ok);
}

/// Whether `status1` is `status0` but for the executions that waited
/// and, with the files of `ready`, miss nothing: they can start.
pub open spec fn woken(
    dag: &ExecutionDAGData,
    status0: Map<ExecutionUuid, ExecutionState>,
    ready: Set<FileUuid>,
    status1: Map<ExecutionUuid, ExecutionState>,
) -> bool {
    &&& status1.dom() == status0.dom()
    &&& forall|i: int|
        0 <= i < dag.execs().len() ==> status1[(#[trigger] dag.execs()[i]).uuid] == if status0[dag.execs()[i].uuid] is Waiting
            && unready(dag.execs()[i].needs(), ready) == 0 {
            ExecutionState::Ready
        } else {
            status0[dag.execs()[i].uuid]
        }
}

/// Before a file comes, each execution that waits can give up the uses
/// of the file.
pub proof fn lemma_release_allowed(
    dag: &ExecutionDAGData,
    status: Map<ExecutionUuid, ExecutionState>,
    missing: Map<ExecutionUuid, usize>,
    ready: Set<FileUuid>,
    index: Map<FileUuid, Vec<ExecutionUuid>>,
    file: FileUuid,
)
    requires
        dag.wf(),
        cover_ok(dag, status),
        counts_ok(dag, status, missing, ready),
        index_ok(dag, index),
        !ready.contains(file),
    ensures
        forall|e: ExecutionUuid| #[trigger]
            missing.contains_key(e) <==> stands(status, e, ExecutionState::Waiting),
        forall|e: ExecutionUuid| #[trigger]
            missing.contains_key(e) ==> 0 < missing[e] && occurrences(waiters_of(index, file), e)
                <= missing[e],
{
    reveal(cover_ok);
    reveal(counts_ok);
    reveal(index_ok);
    assert forall|e: ExecutionUuid| #[trigger] missing.contains_key(e) implies 0 < missing[e]
        && occurrences(waiters_of(index, file), e) <= missing[e] by {
        assert(stands(status, e, ExecutionState::Waiting));
        assert(dag.has_execution(e));
        let i = choose|i: int| 0 <= i < dag.execs().len() && (#[trigger] dag.execs()[i]).uuid == e;
        lemma_wanted(dag.execs(), e, file);
        lemma_unready_insert(dag.execs()[i].needs(), ready, file);
        assert(occurrences(waiters_of(index, file), e) == wanted(dag.execs(), e, file));
    }
}

/// Once the uses of a file that came are off the counts, the counts are
/// right again, and the executions that miss nothing can start.
pub proof fn lemma_released(
    dag: &ExecutionDAGData,
    status0: Map<ExecutionUuid, ExecutionState>,
    missing0: Map<ExecutionUuid, usize>,
    ready: Set<FileUuid>,
    index: Map<FileUuid, Vec<ExecutionUuid>>,
    file: FileUuid,
    status1: Map<ExecutionUuid, ExecutionState>,
    missing1: Map<ExecutionUuid, usize>,
)
    requires
        dag.wf(),
        cover_ok(dag, status0),
        counts_ok(dag, status0, missing0, ready),
        index_ok(dag, index),
        !ready.contains(file),
        released_to(status0, missing0, waiters_of(index, file), status1, missing1),
    ensures
        counts_ok(dag, status1, missing1, ready.insert(file)),
        woken(dag, status0, ready.insert(file), status1),
        same_fate(status0, status1),
        forall|e: ExecutionUuid|
            stands(status0, e, ExecutionState::Running) <==> stands(
                status1,
                e,
                ExecutionState::Running,
            ),
{
    reveal(cover_ok);
    reveal(counts_ok);
    reveal(index_ok);
    let more = ready.insert(file);
    assert forall|i: int| 0 <= i < dag.execs().len() implies {
        let e = (#[trigger] dag.execs()[i]).uuid;
        &&& status0.contains_key(e)
        &&& occurrences(waiters_of(index, file), e) == occurrences(dag.execs()[i].needs(), file)
        &&& unready(dag.execs()[i].needs(), more) + occurrences(dag.execs()[i].needs(), file)
            == unready(dag.execs()[i].needs(), ready)
    } by {
        let e = dag.execs()[i].uuid;
        lemma_place(dag, i);
        lemma_wanted(dag.execs(), e, file);
        lemma_unready_insert(dag.execs()[i].needs(), ready, file);
        assert(occurrences(waiters_of(index, file), e) == wanted(dag.execs(), e, file));
    }
    assert forall|e: ExecutionUuid| #[trigger]
        missing1.contains_key(e) <==> stands(status1, e, ExecutionState::Waiting) by {
        if missing1.contains_key(e) {
            assert(status0.contains_key(e));
        }
        if stands(status1, e, ExecutionState::Waiting) {
            assert(status0.contains_key(e));
            assert(missing0.contains_key(e) <==> stands(status0, e, ExecutionState::Waiting));
        }
    }
    assert forall|i: int|
        0 <= i < dag.execs().len() && status1[(#[trigger] dag.execs()[i]).uuid] is Waiting implies unready(
        dag.execs()[i].needs(),
        more,
    ) > 0 && missing1[dag.execs()[i].uuid] == unready(dag.execs()[i].needs(), more) by {
        let e = dag.execs()[i].uuid;
        assert(status0.contains_key(e));
        assert(missing0.contains_key(e) <==> stands(status0, e, ExecutionState::Waiting));
    }
    assert forall|i: int|
        0 <= i < dag.execs().len() && status1[(#[trigger] dag.execs()[i]).uuid].supplied() implies unready(
        dag.execs()[i].needs(),
        more,
    ) == 0 by {
        let e = dag.execs()[i].uuid;
        assert(status0.contains_key(e));
        assert(missing0.contains_key(e) <==> stands(status0, e, ExecutionState::Waiting));
    }
    assert forall|i: int| 0 <= i < dag.execs().len() implies status1[(
    #[trigger] dag.execs()[i]).uuid] == if status0[dag.execs()[i].uuid] is Waiting && unready(
        dag.execs()[i].needs(),
        more,
    ) == 0 {
        ExecutionState::Ready
    } else {
        status0[dag.execs()[i].uuid]
    } by {
        let e = dag.execs()[i].uuid;
        assert(status0.contains_key(e));
        assert(missing0.contains_key(e) <==> stands(status0, e, ExecutionState::Waiting));
    }
    assert forall|e: ExecutionUuid| #[trigger]
        status0.contains_key(e) && (status0[e].terminal() || status1[e].terminal()) implies status1[e]
        == status0[e] by {
        assert(missing0.contains_key(e) <==> stands(status0, e, ExecutionState::Waiting));
    }
    assert forall|e: ExecutionUuid|
        stands(status0, e, ExecutionState::Running) <==> stands(
            status1,
            e,
            ExecutionState::Running,
        ) by {
        assert(missing0.contains_key(e) <==> stands(status0, e, ExecutionState::Waiting));
        if status0.contains_key(e) {
        }
        assert(status1.contains_key(e) <==> status0.contains_key(e));
    }
}

impl ExecutorData {
    /// Records that `file` is there, with the key `key`; the executions
    /// that waited for nothing else can start.
    pub(crate) fn mark_ready(&mut self, file: FileUuid, key: FileKey)
        requires
            old(self).wf(),
            !old(self).file_keys@.contains_key(file),
            sourced(&old(self).dag, old(self).status@, file),
        ensures
            final(self).wf(),
            final(self).file_keys@ == old(self).file_keys@.insert(file, key),
            woken(&old(self).dag, old(self).status@, final(self).ready_files(), final(self).status@),
            same_fate(old(self).status@, final(self).status@),
            final(self).dag == old(self).dag,
            final(self).callbacks == old(self).callbacks,
            final(self).evaluating == old(self).evaluating,
            final(self).waiting_workers == old(self).waiting_workers,
            final(self).dependents == old(self).dependents,
            final(self).outcomes == old(self).outcomes,
    {
        proof {
            lemma_release_allowed(
                &self.dag,
                self.status@,
                self.missing_deps@,
                self.ready_files(),
                self.dependents@,
                file,
            );
        }
        self.file_keys.insert(file, key);
        assert(self.ready_files() =~= old(self).ready_files().insert(file));
        let none: Vec<ExecutionUuid> = Vec::new();
        let waiters = match self.dependents.get(&file) {
            Some(list) => list,
            None => &none,
        };
        assert(waiters@ == old(self).waiters(file));
        release(
            &self.dag,
            &mut self.status,
            &mut self.missing_deps,
            &mut self.ready_execs,
            waiters,
        );
        proof {
            let dag = &old(self).dag;
            let status0 = old(self).status@;
            let ready0 = old(self).ready_files();
            lemma_released(
                dag,
                status0,
                old(self).missing_deps@,
                ready0,
                old(self).dependents@,
                file,
                self.status@,
                self.missing_deps@,
            );
            lemma_same_fate(dag, status0, self.status@, ready0);
            lemma_keys_gain(dag, self.status@, ready0, file);
            lemma_same_running(status0, self.status@, self.waiting_workers@);
            assert(sourced(dag, self.status@, file)) by {
                if !dag.provided_uuids().contains(file) {
                    let i = choose|i: int|
                        0 <= i < dag.execs().len() && (#[trigger] dag.execs()[i]).makes().contains(
                            file,
                        ) && status0[dag.execs()[i].uuid] is Succeeded;
                    lemma_place(dag, i);
                    reveal(cover_ok);
                    assert(status0.contains_key(dag.execs()[i].uuid));
                }
            }
        }
    }
}

} // verus!
