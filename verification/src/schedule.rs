//! Handing the executions that can start to the workers that are free.

use crate::dag::{ExecutionDAGData, ExecutionUuid, FileUuid, WorkerUuid};
use crate::queue::{queued, ReadyExec};
use crate::scheduler::{
    assigned, counts_ok, cover_ok, distinct_jobs, distinct_workers, lemma_same_fate, queue_ok,
    same_fate, stands, workers_ok, ExecutionState, ExecutorData, WorkerSlot,
};
use std::collections::HashMap;
use vstd::prelude::*;

verus! {

broadcast use vstd::std_specs::hash::group_hash_axioms;

/// An execution handed to a worker.
#[derive(Clone, Copy, Debug, PartialEq, Eq, Structural)]
pub struct Assignment {
    /// The execution.
    pub execution: ExecutionUuid,
    /// The worker that runs it.
    pub worker: WorkerUuid,
}

/// Whether one of `workers` has no job.
pub open spec fn has_idle(workers: Seq<WorkerSlot>) -> bool {
    exists|k: int| 0 <= k < workers.len() && (#[trigger] workers[k]).job is None
}

/// Whether the `k`-th of `workers` is the first without a job.
pub open spec fn is_first_idle(workers: Seq<WorkerSlot>, k: int) -> bool {
    &&& 0 <= k < workers.len()
    &&& workers[k].job is None
    &&& forall|j: int| 0 <= j < k ==> (#[trigger] workers[j]).job is Some
}

/// The place of the first of `workers` without a job; meaningful where
/// there is one.
pub open spec fn first_idle(workers: Seq<WorkerSlot>) -> int {
    choose|k: int| is_first_idle(workers, k)
}

/// The slot `slot` once its worker got the job `job` at the time `now`.
pub open spec fn busy_with(slot: WorkerSlot, job: ExecutionUuid, now: u64) -> WorkerSlot {
    WorkerSlot { worker: slot.worker, name: slot.name, job: Some(job), since: now }
}

/// What handing out work gives: the queue and the workers afterwards,
/// and the assignments in the order in which they were made. While an
/// execution can start and a worker is free, the next execution of the
/// queue goes to the first free worker.
pub open spec fn assign_all(queue: Seq<ReadyExec>, workers: Seq<WorkerSlot>, now: u64) -> (
    Seq<ReadyExec>,
    Seq<WorkerSlot>,
    Seq<Assignment>,
)
    decreases queue.len(),
{
    if queue.len() == 0 || !has_idle(workers) {
        (queue, workers, Seq::empty())
    } else {
        let k = first_idle(workers);
        let job = queue.last().uuid;
        let rest = assign_all(queue.drop_last(), workers.update(k, busy_with(workers[k], job, now)), now);
        (rest.0, rest.1, seq![Assignment { execution: job, worker: workers[k].worker }] + rest.2)
    }
}

/// The states `status` once the executions of `assignments` run.
pub open spec fn started(
    status: Map<ExecutionUuid, ExecutionState>,
    assignments: Seq<Assignment>,
) -> Map<ExecutionUuid, ExecutionState>
    decreases assignments.len(),
{
    if assignments.len() == 0 {
        status
    } else {
        started(status, assignments.drop_last()).insert(
            assignments.last().execution,
            ExecutionState::Running,
        )
    }
}

/// Where a worker has no job, there is a first one without a job.
pub proof fn lemma_first_idle(workers: Seq<WorkerSlot>, j: int)
    requires
        0 <= j < workers.len(),
        workers[j].job is None,
    ensures
        is_first_idle(workers, first_idle(workers)),
    decreases j,
{
    if forall|i: int| 0 <= i < j ==> (#[trigger] workers[i]).job is Some {
        assert(is_first_idle(workers, j));
    } else {
        let i = choose|i: int| 0 <= i < j && (#[trigger] workers[i]).job is None;
        lemma_first_idle(workers, i);
    }
}

/// Handing out work leaves each worker at its place in the list.
pub proof fn lemma_assign_keeps_workers(queue: Seq<ReadyExec>, workers: Seq<WorkerSlot>, now: u64)
    ensures
        assign_all(queue, workers, now).1.len() == workers.len(),
        forall|i: int|
            0 <= i < workers.len() ==> (#[trigger] assign_all(queue, workers, now).1[i]).worker
                == workers[i].worker,
    decreases queue.len(),
{
    if queue.len() == 0 || !has_idle(workers) {
    } else {
        let k = first_idle(workers);
        let found = choose|j: int| 0 <= j < workers.len() && (#[trigger] workers[j]).job is None;
        lemma_first_idle(workers, found);
        let next = workers.update(k, busy_with(workers[k], queue.last().uuid, now));
        lemma_assign_keeps_workers(queue.drop_last(), next, now);
        assert forall|i: int| 0 <= i < workers.len() implies (#[trigger] assign_all(
            queue,
            workers,
            now,
        ).1[i]).worker == workers[i].worker by {
            assert(next[i].worker == workers[i].worker);
        }
    }
}

/// After work was handed out, no execution can start or no worker is
/// free.
pub proof fn lemma_assign_all_stops(queue: Seq<ReadyExec>, workers: Seq<WorkerSlot>, now: u64)
    ensures
        assign_all(queue, workers, now).0.len() == 0 || !has_idle(assign_all(queue, workers, now).1),
    decreases queue.len(),
{
    if queue.len() == 0 || !has_idle(workers) {
    } else {
        let k = first_idle(workers);
        lemma_assign_all_stops(
            queue.drop_last(),
            workers.update(k, busy_with(workers[k], queue.last().uuid, now)),
            now,
        );
    }
}

/// Handing out work twice in a row is handing it out once: the second
/// time changes nothing and assigns nothing.
pub proof fn schedule_is_idempotent(
    queue: Seq<ReadyExec>,
    workers: Seq<WorkerSlot>,
    now: u64,
    later: u64,
)
    ensures
        assign_all(assign_all(queue, workers, now).0, assign_all(queue, workers, now).1, later) == (
            assign_all(queue, workers, now).0,
            assign_all(queue, workers, now).1,
            Seq::<Assignment>::empty(),
        ),
{
    lemma_assign_all_stops(queue, workers, now);
}

/// The first of `workers` without a job.
fn find_idle(workers: &Vec<WorkerSlot>) -> (at: Option<usize>)
    ensures
        match at {
            Some(k) => is_first_idle(workers@, k as int) && first_idle(workers@) == k,
            None => !has_idle(workers@),
        },
{
    let mut k: usize = 0;
    while k < workers.len()
        invariant
            k <= workers@.len(),
            forall|j: int| 0 <= j < k ==> (#[trigger] workers@[j]).job is Some,
        decreases workers@.len() - k,
    {
        if workers[k].job.is_none() {
            assert(is_first_idle(workers@, k as int));
            let ghost first = first_idle(workers@);
            assert(is_first_idle(workers@, first));
            assert(first == k) by {
                if first < k {
                    assert(workers@[first].job is Some);
                }
                if k < first {
                    assert(workers@[k as int].job is Some);
                }
            }
            return Some(k);
        }
        k += 1;
    }
    None
}

/// One assignment keeps the queue, the jobs and the counts right.
proof fn lemma_assign_one(
    dag: &ExecutionDAGData,
    status: Map<ExecutionUuid, ExecutionState>,
    missing: Map<ExecutionUuid, usize>,
    ready: Set<FileUuid>,
    queue: Seq<ReadyExec>,
    workers: Seq<WorkerSlot>,
    k: int,
    now: u64,
)
    requires
        dag.wf(),
        cover_ok(dag, status),
        counts_ok(dag, status, missing, ready),
        queue_ok(dag, status, queue),
        workers_ok(status, workers),
        queue.len() > 0,
        is_first_idle(workers, k),
    ensures
        stands(status, queue.last().uuid, ExecutionState::Ready),
        counts_ok(dag, status.insert(queue.last().uuid, ExecutionState::Running), missing, ready),
        queue_ok(dag, status.insert(queue.last().uuid, ExecutionState::Running), queue.drop_last()),
        workers_ok(
            status.insert(queue.last().uuid, ExecutionState::Running),
            workers.update(k, busy_with(workers[k], queue.last().uuid, now)),
        ),
        same_fate(status, status.insert(queue.last().uuid, ExecutionState::Running)),
{
    reveal(cover_ok);
    reveal(counts_ok);
    reveal(queue_ok);
    reveal(workers_ok);
    let job = queue.last().uuid;
    let status1 = status.insert(job, ExecutionState::Running);
    let queue1 = queue.drop_last();
    let workers1 = workers.update(k, busy_with(workers[k], job, now));
    assert(queued(queue, job)) by {
        assert(queue[queue.len() - 1].uuid == job);
    }
    assert(status1.dom() =~= status.dom());
    assert forall|e: ReadyExec| #[trigger] queue1.contains(e) implies queue.contains(e) by {
        let at = choose|at: int| 0 <= at < queue1.len() && queue1[at] == e;
        assert(queue[at] == e);
    }
    assert(!queued(queue1, job)) by {
        if queued(queue1, job) {
            let at = choose|at: int| 0 <= at < queue1.len() && (#[trigger] queue1[at]).uuid == job;
            assert(queue[at].after(queue[queue.len() - 1]));
            assert(queue.contains(queue[at]));
            assert(queue.contains(queue.last()));
        }
    }
    assert forall|e: ExecutionUuid| #[trigger]
        queued(queue1, e) <==> stands(status1, e, ExecutionState::Ready) by {
        assert(queued(queue, e) <==> stands(status, e, ExecutionState::Ready));
        if queued(queue1, e) {
            let at = choose|at: int| 0 <= at < queue1.len() && (#[trigger] queue1[at]).uuid == e;
            assert(queue[at].uuid == e);
        }
        if queued(queue, e) && e != job {
            let at = choose|at: int| 0 <= at < queue.len() && (#[trigger] queue[at]).uuid == e;
            assert(queue1[at].uuid == e);
        }
    }
    assert(!assigned(workers, job)) by {
        assert(assigned(workers, job) <==> stands(status, job, ExecutionState::Running));
    }
    assert forall|e: ExecutionUuid| #[trigger]
        assigned(workers1, e) <==> stands(status1, e, ExecutionState::Running) by {
        assert(assigned(workers, e) <==> stands(status, e, ExecutionState::Running));
        if assigned(workers1, e) {
            let at = choose|at: int|
                0 <= at < workers1.len() && (#[trigger] workers1[at]).job == Some(e);
            if at != k {
                assert(workers[at].job == Some(e));
            }
        }
        if assigned(workers, e) {
            let at = choose|at: int| 0 <= at < workers.len() && (#[trigger] workers[at]).job == Some(e);
            assert(workers1[at].job == Some(e));
        }
        if e == job {
            assert(workers1[k].job == Some(e));
        }
    }
    assert(distinct_jobs(workers1)) by {
        assert forall|a: int, b: int|
            0 <= a < b < workers1.len() && (#[trigger] workers1[a]).job is Some implies workers1[a].job
            != (#[trigger] workers1[b]).job by {
            if a == k {
                if workers[b].job == Some(job) {
                    assert(assigned(workers, job));
                }
            } else if b == k {
                if workers[a].job == Some(job) {
                    assert(assigned(workers, job));
                }
            } else {
                assert(workers[a].job != workers[b].job);
            }
        }
    }
    assert(distinct_workers(workers1)) by {
        assert forall|a: int, b: int| 0 <= a < b < workers1.len() implies (
        #[trigger] workers1[a]).worker != (#[trigger] workers1[b]).worker by {
            assert(workers[a].worker != workers[b].worker);
        }
    }
}

/// Hands the executions that can start to the workers that are free.
fn assign(
    dag: &ExecutionDAGData,
    status: &mut HashMap<ExecutionUuid, ExecutionState>,
    queue: &mut Vec<ReadyExec>,
    workers: &mut Vec<WorkerSlot>,
    now: u64,
    Ghost(missing): Ghost<Map<ExecutionUuid, usize>>,
    Ghost(ready): Ghost<Set<FileUuid>>,
) -> (assignments: Vec<Assignment>)
    requires
        dag.wf(),
        cover_ok(dag, old(status)@),
        counts_ok(dag, old(status)@, missing, ready),
        queue_ok(dag, old(status)@, old(queue)@),
        workers_ok(old(status)@, old(workers)@),
    ensures
        (final(queue)@, final(workers)@, assignments@) == assign_all(old(queue)@, old(workers)@, now),
        final(status)@ == started(old(status)@, assignments@),
        cover_ok(dag, final(status)@),
        counts_ok(dag, final(status)@, missing, ready),
        queue_ok(dag, final(status)@, final(queue)@),
        workers_ok(final(status)@, final(workers)@),
        same_fate(old(status)@, final(status)@),
{
    let mut assignments: Vec<Assignment> = Vec::new();
    proof {
        lemma_same_fate(dag, status@, status@, ready);
    }
    loop
        invariant
            dag.wf(),
            cover_ok(dag, status@),
            counts_ok(dag, status@, missing, ready),
            queue_ok(dag, status@, queue@),
            workers_ok(status@, workers@),
            same_fate(old(status)@, status@),
            status@ == started(old(status)@, assignments@),
            assign_all(old(queue)@, old(workers)@, now) == (
                assign_all(queue@, workers@, now).0,
                assign_all(queue@, workers@, now).1,
                assignments@ + assign_all(queue@, workers@, now).2,
            ),
        ensures
            (queue@, workers@, assignments@) == assign_all(old(queue)@, old(workers)@, now),
        decreases queue@.len(),
    {
        if queue.len() == 0 {
            assert(assignments@ + Seq::<Assignment>::empty() == assignments@);
            break;
        }
        let at = find_idle(workers);
        match at {
            None => {
                assert(assignments@ + Seq::<Assignment>::empty() == assignments@);
                break;
            },
            Some(k) => {
                let ghost status0 = status@;
                let ghost queue0 = queue@;
                let ghost workers0 = workers@;
                let ghost done = assignments@;
                proof {
                    lemma_assign_one(dag, status0, missing, ready, queue0, workers0, k as int, now);
                }
                let next = queue.pop().unwrap();
                let mut slot = workers.remove(k);
                slot.job = Some(next.uuid);
                slot.since = now;
                let worker = slot.worker;
                workers.insert(k, slot);
                status.insert(next.uuid, ExecutionState::Running);
                assignments.push(Assignment { execution: next.uuid, worker });
                proof {
                    assert(queue@ == queue0.drop_last());
                    assert(workers@ == workers0.update(
                        k as int,
                        busy_with(workers0[k as int], next.uuid, now),
                    ));
                    let rest = assign_all(queue@, workers@, now);
                    let one = seq![Assignment { execution: next.uuid, worker }];
                    assert(assign_all(queue0, workers0, now).2 == one + rest.2);
                    assert(done + (one + rest.2) == (done + one) + rest.2);
                    assert(assignments@ == done + one);
                    assert(assignments@.drop_last() == done);
                    lemma_same_fate(dag, status0, status@, ready);
                }
            },
        }
    }
    assignments
}

impl ExecutorData {
    /// Hands the executions that can start to the workers that are
    /// free, and returns the assignments in the order in which they were
    /// made.
    pub fn schedule(&mut self, now: u64) -> (assignments: Vec<Assignment>)
        requires
            old(self).wf(),
        ensures
            final(self).wf(),
            (final(self).ready_execs@, final(self).waiting_workers@, assignments@) == assign_all(
                old(self).ready_execs@,
                old(self).waiting_workers@,
                now,
            ),
            final(self).status@ == started(old(self).status@, assignments@),
            same_fate(old(self).status@, final(self).status@),
            final(self).dag == old(self).dag,
            final(self).callbacks == old(self).callbacks,
            final(self).evaluating == old(self).evaluating,
            final(self).missing_deps == old(self).missing_deps,
            final(self).dependents == old(self).dependents,
            final(self).file_keys == old(self).file_keys,
            final(self).outcomes == old(self).outcomes,
    {
        let ghost missing = self.missing_deps@;
        let ghost ready = self.ready_files();
        let assignments = assign(
            &self.dag,
            &mut self.status,
            &mut self.ready_execs,
            &mut self.waiting_workers,
            now,
            Ghost(missing),
            Ghost(ready),
        );
        proof {
            lemma_same_fate(&self.dag, old(self).status@, self.status@, self.ready_files());
        }
        assignments
    }
}

} // verus!
