//! The workers that come and go, and the files that the client sends.

use crate::dag::{ExecutionUuid, FileKey, FileUuid, WorkerUuid};
use crate::finish::lemma_finish;
use crate::queue::{enqueue, in_service_order, queued, ReadyExec};
use crate::scheduler::{
    assigned, cover_ok, distinct_workers, lemma_queue_gains, queue_ok, stands,
    woken, workers_ok, ExecutionState, ExecutorData, WorkerSlot,
};
use vstd::prelude::*;

verus! {

broadcast use vstd::std_specs::hash::group_hash_axioms;

/// Whether `worker` is listed in `workers`.
pub open spec fn listed(workers: Seq<WorkerSlot>, worker: WorkerUuid) -> bool {
    exists|k: int| 0 <= k < workers.len() && (#[trigger] workers[k]).worker == worker
}

/// The place of `worker` in `workers`; meaningful where it is listed.
pub open spec fn slot_of(workers: Seq<WorkerSlot>, worker: WorkerUuid) -> int {
    choose|k: int| 0 <= k < workers.len() && (#[trigger] workers[k]).worker == worker
}

/// The place of `worker` in `workers`.
pub fn find_worker(workers: &Vec<WorkerSlot>, worker: WorkerUuid) -> (at: Option<usize>)
    ensures
        match at {
            Some(k) => k < workers@.len() && workers@[k as int].worker == worker,
            None => !listed(workers@, worker),
        },
{
    let mut k: usize = 0;
    while k < workers.len()
        invariant
            k <= workers@.len(),
            forall|j: int| 0 <= j < k ==> (#[trigger] workers@[j]).worker != worker,
        decreases workers@.len() - k,
    {
        if workers[k].worker == worker {
            return Some(k);
        }
        k += 1;
    }
    None
}

/// Among distinct workers, a worker stands where it is found.
pub proof fn lemma_slot_of(workers: Seq<WorkerSlot>, k: int)
    requires
        distinct_workers(workers),
        0 <= k < workers.len(),
    ensures
        slot_of(workers, workers[k].worker) == k,
        listed(workers, workers[k].worker),
{
    let other = slot_of(workers, workers[k].worker);
    if other < k {
        assert(workers[other].worker != workers[k].worker);
    }
    if k < other {
        assert(workers[k].worker != workers[other].worker);
    }
}

/// A new worker without a job leaves the jobs as they are.
proof fn lemma_worker_joins(
    status: Map<ExecutionUuid, ExecutionState>,
    workers: Seq<WorkerSlot>,
    slot: WorkerSlot,
)
    requires
        workers_ok(status, workers),
        !listed(workers, slot.worker),
        slot.job is None,
    ensures
        workers_ok(status, workers.push(slot)),
{
    reveal(workers_ok);
    let more = workers.push(slot);
    assert forall|a: int, b: int| 0 <= a < b < more.len() implies (#[trigger] more[a]).worker != (
    #[trigger] more[b]).worker by {
        if b < workers.len() {
            assert(workers[a].worker != workers[b].worker);
        } else {
            assert(workers[a].worker == more[a].worker);
        }
    }
    assert forall|a: int, b: int|
        0 <= a < b < more.len() && (#[trigger] more[a]).job is Some implies more[a].job != (
    #[trigger] more[b]).job by {
        if b < workers.len() {
            assert(workers[a].job != workers[b].job);
        }
    }
    assert forall|e: ExecutionUuid| #[trigger]
        assigned(more, e) <==> stands(status, e, ExecutionState::Running) by {
        assert(assigned(workers, e) <==> stands(status, e, ExecutionState::Running));
        if assigned(more, e) {
            let at = choose|at: int| 0 <= at < more.len() && (#[trigger] more[at]).job == Some(e);
            assert(workers[at].job == Some(e));
        }
        if assigned(workers, e) {
            let at = choose|at: int| 0 <= at < workers.len() && (#[trigger] workers[at]).job == Some(e);
            assert(more[at].job == Some(e));
        }
    }
}

/// A worker without a job that leaves leaves the jobs as they are.
proof fn lemma_worker_leaves(
    status: Map<ExecutionUuid, ExecutionState>,
    workers: Seq<WorkerSlot>,
    k: int,
)
    requires
        workers_ok(status, workers),
        0 <= k < workers.len(),
        workers[k].job is None,
    ensures
        workers_ok(status, workers.remove(k)),
{
    reveal(workers_ok);
    let fewer = workers.remove(k);
    assert forall|a: int, b: int| 0 <= a < b < fewer.len() implies (#[trigger] fewer[a]).worker != (
    #[trigger] fewer[b]).worker by {
        let a0 = if a < k {
            a
        } else {
            a + 1
        };
        let b0 = if b < k {
            b
        } else {
            b + 1
        };
        assert(workers[a0].worker != workers[b0].worker);
    }
    assert forall|a: int, b: int|
        0 <= a < b < fewer.len() && (#[trigger] fewer[a]).job is Some implies fewer[a].job != (
    #[trigger] fewer[b]).job by {
        let a0 = if a < k {
            a
        } else {
            a + 1
        };
        let b0 = if b < k {
            b
        } else {
            b + 1
        };
        assert(workers[a0].job != workers[b0].job);
    }
    assert forall|e: ExecutionUuid| #[trigger]
        assigned(fewer, e) <==> stands(status, e, ExecutionState::Running) by {
        assert(assigned(workers, e) <==> stands(status, e, ExecutionState::Running));
        if assigned(fewer, e) {
            let at = choose|at: int| 0 <= at < fewer.len() && (#[trigger] fewer[at]).job == Some(e);
            let at0 = if at < k {
                at
            } else {
                at + 1
            };
            assert(workers[at0].job == Some(e));
        }
        if assigned(workers, e) {
            let at = choose|at: int| 0 <= at < workers.len() && (#[trigger] workers[at]).job == Some(e);
            if at < k {
                assert(fewer[at].job == Some(e));
            } else {
                assert(fewer[at - 1].job == Some(e));
            }
        }
    }
}

impl ExecutorData {
    /// Whether `new` is `self` after `worker` asked for work: where it
    /// was not listed (`added`), it is the last of the list, without a
    /// job; else nothing changed.
    pub open spec fn joined_to(
        &self,
        worker: WorkerUuid,
        name: Seq<char>,
        now: u64,
        new: &ExecutorData,
        added: bool,
    ) -> bool {
        &&& self.same_graph(new)
        &&& added == !listed(self.waiting_workers@, worker)
        &&& added ==> new.waiting_workers@.len() == self.waiting_workers@.len() + 1
            && new.waiting_workers@.drop_last() == self.waiting_workers@
            && new.waiting_workers@.last().worker == worker && new.waiting_workers@.last().name@
            == name && new.waiting_workers@.last().job is None && new.waiting_workers@.last().since
            == now
        &&& !added ==> new.waiting_workers == self.waiting_workers
        &&& new.evaluating == self.evaluating
        &&& new.status == self.status
        &&& new.ready_execs == self.ready_execs
        &&& new.missing_deps == self.missing_deps
        &&& new.file_keys == self.file_keys
        &&& new.outcomes == self.outcomes
    }

    /// Whether `new` is `self` after `worker` went away: where it was
    /// listed (`removed`), it is off the list, and the execution that it
    /// ran, if any, can start again; else nothing changed.
    pub open spec fn left_to(&self, worker: WorkerUuid, new: &ExecutorData, removed: bool) -> bool {
        &&& self.same_graph(new)
        &&& removed == listed(self.waiting_workers@, worker)
        &&& removed ==> new.waiting_workers@ == self.waiting_workers@.remove(
            slot_of(self.waiting_workers@, worker),
        )
        &&& removed ==> new.status@ == match self.waiting_workers@[slot_of(
            self.waiting_workers@,
            worker,
        )].job {
            Some(job) => self.status@.insert(job, ExecutionState::Ready),
            None => self.status@,
        }
        &&& !removed ==> new.waiting_workers == self.waiting_workers && new.status == self.status
            && new.ready_execs == self.ready_execs
        &&& new.evaluating == self.evaluating
        &&& new.missing_deps == self.missing_deps
        &&& new.file_keys == self.file_keys
        &&& new.outcomes == self.outcomes
    }

    /// Whether `new` is `self` after the client sent the file `file`
    /// with the key `key`: where the client supplies the file in this
    /// graph and the file was not there (`taken`), it is there, and the
    /// executions that waited for nothing else can start; else nothing
    /// changed.
    pub open spec fn supplied_to(
        &self,
        file: FileUuid,
        key: FileKey,
        new: &ExecutorData,
        taken: bool,
    ) -> bool {
        &&& self.same_graph(new)
        &&& taken == (self.dag.provided_uuids().contains(file) && !self.file_keys@.contains_key(
            file,
        ))
        &&& taken ==> new.file_keys@ == self.file_keys@.insert(file, key) && woken(
            &self.dag,
            self.status@,
            new.ready_files(),
            new.status@,
        )
        &&& !taken ==> new.file_keys == self.file_keys && new.status == self.status
            && new.ready_execs == self.ready_execs && new.missing_deps == self.missing_deps
        &&& new.evaluating == self.evaluating
        &&& new.waiting_workers == self.waiting_workers
        &&& new.outcomes == self.outcomes
    }

    /// Lists a worker that asks for work, behind those that asked before.
    /// Returns `false`, and changes nothing, where the worker is listed
    /// already.
    pub fn worker_waits(&mut self, worker: WorkerUuid, name: String, now: u64) -> (added: bool)
        requires
            old(self).wf(),
        ensures
            final(self).wf(),
            old(self).joined_to(worker, name@, now, final(self), added),
    {
        match find_worker(&self.waiting_workers, worker) {
            Some(_) => false,
            None => {
                let slot = WorkerSlot { worker, name, job: None, since: now };
                proof {
                    lemma_worker_joins(self.status@, self.waiting_workers@, slot);
                }
                self.waiting_workers.push(slot);
                assert(self.waiting_workers@.drop_last() == old(self).waiting_workers@);
                true
            },
        }
    }

    /// Forgets a worker that is gone. The execution that it ran, if any,
    /// can start again. Returns `false`, and changes nothing, where the
    /// worker is not listed.
    pub fn worker_gone(&mut self, worker: WorkerUuid) -> (removed: bool)
        requires
            old(self).wf(),
        ensures
            final(self).wf(),
            old(self).left_to(worker, final(self), removed),
    {
        let k = match find_worker(&self.waiting_workers, worker) {
            None => {
                return false;
            },
            Some(k) => k,
        };
        proof {
            reveal(workers_ok);
            lemma_slot_of(self.waiting_workers@, k as int);
        }
        let ghost status0 = self.status@;
        let ghost queue0 = self.ready_execs@;
        let ghost workers0 = self.waiting_workers@;
        match self.waiting_workers[k].job {
            None => {
                proof {
                    lemma_worker_leaves(status0, workers0, k as int);
                }
                self.waiting_workers.remove(k);
            },
            Some(job) => {
                proof {
                    lemma_finish(
                        &self.dag,
                        status0,
                        self.missing_deps@,
                        self.ready_files(),
                        queue0,
                        workers0,
                        k as int,
                        ExecutionState::Ready,
                    );
                }
                let place = self.dag.find_execution(job);
                assert(place is Some) by {
                    reveal(cover_ok);
                    assert(self.dag.has_execution(job));
                }
                let place = place.unwrap();
                let priority = self.dag.executions()[place].priority;
                self.waiting_workers.remove(k);
                self.status.insert(job, ExecutionState::Ready);
                assert(!queued(queue0, job) && in_service_order(queue0)) by {
                    reveal(queue_ok);
                    assert(!stands(status0, job, ExecutionState::Ready));
                }
                enqueue(&mut self.ready_execs, ReadyExec { priority, uuid: job });
                proof {
                    lemma_queue_gains(&self.dag, status0, queue0, place as int, self.ready_execs@);
                }
            },
        }
        true
    }

    /// Records that the client sent the supplied file `file`, with the
    /// key `key`: the executions that waited for nothing else can start.
    /// Returns `false`, and changes nothing, where the client does not
    /// supply `file` in this graph, or the file is there already.
    pub fn file_ready(&mut self, file: FileUuid, key: FileKey) -> (taken: bool)
        requires
            old(self).wf(),
        ensures
            final(self).wf(),
            old(self).supplied_to(file, key, final(self), taken),
    {
        if self.dag.provides(file) && !self.file_keys.contains_key(&file) {
            self.mark_ready(file, key);
            true
        } else {
            false
        }
    }

    /// Whether nothing is left to do: no execution waits, can start or
    /// runs.
    pub fn is_complete(&self) -> (yes: bool)
        ensures
            yes == self.complete(),
    {
        if !self.missing_deps.is_empty() || self.ready_execs.len() != 0 {
            assert(self.missing_deps@.len() == 0 ==> self.missing_deps@.is_empty()) by {
                if self.missing_deps@.len() == 0 {
                    self.missing_deps@.dom().lemma_len0_is_empty();
                }
            }
            return false;
        }
        let mut k: usize = 0;
        while k < self.waiting_workers.len()
            invariant
                k <= self.waiting_workers@.len(),
                forall|j: int| 0 <= j < k ==> (#[trigger] self.waiting_workers@[j]).job is None,
            decreases self.waiting_workers@.len() - k,
        {
            if self.waiting_workers[k].job.is_some() {
                return false;
            }
            k += 1;
        }
        true
    }
}

} // verus!
