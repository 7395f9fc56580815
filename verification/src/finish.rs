//! What the scheduler does when an execution ends.

use crate::cascade::{
    caused, lemma_waiters_of_products, list_waiters, settling, skip_all,
    skipped_to, waiters_of_products,
};
use crate::check_dag::{lemma_product_is_source, lemma_single_producer};
use crate::dag::{ExecutionDAGData, ExecutionUuid, FileKey, FileUuid};
use crate::queue::ReadyExec;
use crate::scheduler::{
    assigned, counts_ok, cover_ok, index_ok, keys_ok,
    lemma_place, queue_ok, settled_ok, skips_ok, sourced, stands, unready, woken, workers_ok,
    ExecutionState, ExecutorData, WorkerSlot,
};
use vstd::prelude::*;

verus! {

broadcast use vstd::std_specs::hash::group_hash_axioms;

/// The place among `workers` of the one whose job is `uuid`; meaningful
/// where there is one.
pub open spec fn job_slot(workers: Seq<WorkerSlot>, uuid: ExecutionUuid) -> int {
    choose|k: int| 0 <= k < workers.len() && (#[trigger] workers[k]).job == Some(uuid)
}

/// The place among `workers` of the one whose job is `uuid`.
pub fn find_job(workers: &Vec<WorkerSlot>, uuid: ExecutionUuid) -> (at: Option<usize>)
    ensures
        match at {
            Some(k) => k < workers@.len() && workers@[k as int].job == Some(uuid),
            None => !assigned(workers@, uuid),
        },
{
    let mut k: usize = 0;
    while k < workers.len()
        invariant
            k <= workers@.len(),
            forall|j: int| 0 <= j < k ==> (#[trigger] workers@[j]).job != Some(uuid),
        decreases workers@.len() - k,
    {
        match workers[k].job {
            Some(job) => {
                if job == uuid {
                    return Some(k);
                }
            },
            None => {},
        }
        k += 1;
    }
    None
}

/// When the execution that a worker runs ends, and the worker leaves
/// the list, the state holds together but for what the end entails.
pub proof fn lemma_finish(
    dag: &ExecutionDAGData,
    status: Map<ExecutionUuid, ExecutionState>,
    missing: Map<ExecutionUuid, usize>,
    ready: Set<FileUuid>,
    queue: Seq<ReadyExec>,
    workers: Seq<WorkerSlot>,
    k: int,
    end: ExecutionState,
)
    requires
        dag.wf(),
        cover_ok(dag, status),
        counts_ok(dag, status, missing, ready),
        queue_ok(dag, status, queue),
        workers_ok(status, workers),
        keys_ok(dag, status, ready),
        skips_ok(dag, status),
        0 <= k < workers.len(),
        workers[k].job is Some,
        end is Succeeded || end is Failed || end is Ready,
    ensures
        stands(status, workers[k].job.unwrap(), ExecutionState::Running),
        job_slot(workers, workers[k].job.unwrap()) == k,
        cover_ok(dag, status.insert(workers[k].job.unwrap(), end)),
        counts_ok(dag, status.insert(workers[k].job.unwrap(), end), missing, ready),
        !(end is Ready) ==> queue_ok(dag, status.insert(workers[k].job.unwrap(), end), queue),
        workers_ok(status.insert(workers[k].job.unwrap(), end), workers.remove(k)),
        keys_ok(dag, status.insert(workers[k].job.unwrap(), end), ready),
        skips_ok(dag, status.insert(workers[k].job.unwrap(), end)),
        !(end is Failed) && settled_ok(dag, status) ==> settled_ok(
            dag,
            status.insert(workers[k].job.unwrap(), end),
        ),
{
    let job = workers[k].job.unwrap();
    let status1 = status.insert(job, end);
    let workers1 = workers.remove(k);
    assert(assigned(workers, job));
    assert(stands(status, job, ExecutionState::Running)) by {
        reveal(workers_ok);
    }
    assert(job_slot(workers, job) == k) by {
        reveal(workers_ok);
        let other = job_slot(workers, job);
        if other < k {
            assert(workers[other].job != workers[k].job);
        }
        if k < other {
            assert(workers[k].job != workers[other].job);
        }
    }
    assert(status1.dom() =~= status.dom());
    assert(dag.has_execution(job)) by {
        reveal(cover_ok);
    }
    let i = choose|i: int| 0 <= i < dag.execs().len() && (#[trigger] dag.execs()[i]).uuid == job;
    assert forall|j: int| 0 <= j < dag.execs().len() implies (status1[(
    #[trigger] dag.execs()[j]).uuid] == if j == i {
        end
    } else {
        status[dag.execs()[j].uuid]
    }) by {
        lemma_place(dag, j);
        lemma_place(dag, i);
    }
    assert(cover_ok(dag, status1)) by {
        reveal(cover_ok);
    }
    assert(counts_ok(dag, status1, missing, ready)) by {
        reveal(counts_ok);
        assert forall|e: ExecutionUuid| #[trigger]
            missing.contains_key(e) <==> stands(status1, e, ExecutionState::Waiting) by {
            assert(missing.contains_key(e) <==> stands(status, e, ExecutionState::Waiting));
        }
    }
    if !(end is Ready) {
        reveal(queue_ok);
        assert forall|e: ExecutionUuid| #[trigger]
            crate::queue::queued(queue, e) <==> stands(status1, e, ExecutionState::Ready) by {
            assert(crate::queue::queued(queue, e) <==> stands(status, e, ExecutionState::Ready));
        }
        assert(queue_ok(dag, status1, queue));
    }
    assert(workers_ok(status1, workers1)) by {
        reveal(workers_ok);
        assert forall|a: int, b: int| 0 <= a < b < workers1.len() implies (
        #[trigger] workers1[a]).worker != (#[trigger] workers1[b]).worker by {
            let a0 = if a < k {
                a
            } else {
                a + 1
            };
            let b0 = if b < k {
                b
            } else {
                b + 1
            };
            assert(workers[a0].worker != workers[b0].worker);
        }
        assert forall|a: int, b: int|
            0 <= a < b < workers1.len() && (#[trigger] workers1[a]).job is Some implies workers1[a].job
            != (#[trigger] workers1[b]).job by {
            let a0 = if a < k {
                a
            } else {
                a + 1
            };
            let b0 = if b < k {
                b
            } else {
                b + 1
            };
            assert(workers[a0].job != workers[b0].job);
        }
        assert forall|e: ExecutionUuid| #[trigger]
            assigned(workers1, e) <==> stands(status1, e, ExecutionState::Running) by {
            assert(assigned(workers, e) <==> stands(status, e, ExecutionState::Running));
            if assigned(workers1, e) {
                let at = choose|at: int|
                    0 <= at < workers1.len() && (#[trigger] workers1[at]).job == Some(e);
                let at0 = if at < k {
                    at
                } else {
                    at + 1
                };
                assert(workers[at0].job == Some(e));
                if e == job {
                    if at0 < k {
                        assert(workers[at0].job != workers[k].job);
                    } else {
                        assert(workers[k].job != workers[at0].job);
                    }
                }
            }
            if assigned(workers, e) && e != job {
                let at = choose|at: int|
                    0 <= at < workers.len() && (#[trigger] workers[at]).job == Some(e);
                if at < k {
                    assert(workers1[at].job == Some(e));
                } else {
                    assert(workers1[at - 1].job == Some(e));
                }
            }
        }
    }
    assert(keys_ok(dag, status1, ready)) by {
        reveal(keys_ok);
        assert forall|f: FileUuid| #[trigger] ready.contains(f) implies dag.provided_uuids().contains(
            f,
        ) || exists|j: int|
            0 <= j < dag.execs().len() && (#[trigger] dag.execs()[j]).makes().contains(f)
                && status1[dag.execs()[j].uuid] is Succeeded by {
            if !dag.provided_uuids().contains(f) {
                let j = choose|j: int|
                    0 <= j < dag.execs().len() && (#[trigger] dag.execs()[j]).makes().contains(f)
                        && status[dag.execs()[j].uuid] is Succeeded;
                assert(status1[dag.execs()[j].uuid] is Succeeded);
            }
        }
    }
    assert(skips_ok(dag, status1)) by {
        reveal(skips_ok);
        assert forall|v: int|
            0 <= v < dag.execs().len() && status1[(#[trigger] dag.execs()[v]).uuid] is Skipped implies exists|
            u: int,
        |
            0 <= u < dag.execs().len() && #[trigger] dag.feeds(u, v)
                && status1[dag.execs()[u].uuid].doomed() by {
            let u = choose|u: int|
                0 <= u < dag.execs().len() && #[trigger] dag.feeds(u, v)
                    && status[dag.execs()[u].uuid].doomed();
            assert(status1[dag.execs()[u].uuid].doomed());
        }
    }
    if !(end is Failed) && settled_ok(dag, status) {
        reveal(settled_ok);
    }
}

/// When an execution that ran has failed, those that it feeds are to be
/// skipped, and nothing else is.
proof fn lemma_failure(
    dag: &ExecutionDAGData,
    status: Map<ExecutionUuid, ExecutionState>,
    missing: Map<ExecutionUuid, usize>,
    ready: Set<FileUuid>,
    index: Map<FileUuid, Vec<ExecutionUuid>>,
    i: int,
)
    requires
        dag.wf(),
        dag.valid(),
        cover_ok(dag, status),
        counts_ok(dag, status, missing, ready),
        keys_ok(dag, status, ready),
        index_ok(dag, index),
        settled_ok(dag, status),
        0 <= i < dag.execs().len(),
        status[dag.execs()[i].uuid] is Running,
    ensures
        settling(
            dag,
            status.insert(dag.execs()[i].uuid, ExecutionState::Failed),
            waiters_of_products(dag, index, i, dag.execs()[i].makes().len()),
        ),
        caused(
            dag,
            status.insert(dag.execs()[i].uuid, ExecutionState::Failed),
            waiters_of_products(dag, index, i, dag.execs()[i].makes().len()),
        ),
{
    let status1 = status.insert(dag.execs()[i].uuid, ExecutionState::Failed);
    let work = waiters_of_products(dag, index, i, dag.execs()[i].makes().len());
    lemma_waiters_of_products(dag, index, i, dag.execs()[i].makes().len());
    assert forall|j: int| 0 <= j < dag.execs().len() implies (status1[(
    #[trigger] dag.execs()[j]).uuid] == if j == i {
        ExecutionState::Failed
    } else {
        status[dag.execs()[j].uuid]
    }) by {
        lemma_place(dag, j);
        lemma_place(dag, i);
    }
    assert(settling(dag, status1, work)) by {
        reveal(settling);
        reveal(settled_ok);
        assert forall|u: int, v: int|
            0 <= u < dag.execs().len() && 0 <= v < dag.execs().len() && #[trigger] dag.feeds(u, v)
                && status1[dag.execs()[u].uuid].doomed() implies status1[dag.execs()[v].uuid] is Skipped
            || work.contains(dag.execs()[v].uuid) by {
            if u == i {
                let f = choose|f: FileUuid|
                    dag.execs()[u].makes().contains(f) && #[trigger] dag.execs()[v].needs().contains(
                        f,
                    );
                let k = choose|k: int|
                    0 <= k < dag.execs()[i].makes().len() && dag.execs()[i].makes()[k] == f;
                assert(dag.execs()[v].needs().contains(dag.execs()[i].makes()[k]));
            } else {
                assert(status[dag.execs()[v].uuid] is Skipped);
            }
        }
    }
    assert(caused(dag, status1, work)) by {
        reveal(caused);
        assert forall|x: ExecutionUuid| #[trigger] work.contains(x) implies exists|u: int, v: int|
            0 <= u < dag.execs().len() && 0 <= v < dag.execs().len() && dag.execs()[v].uuid == x
                && #[trigger] dag.feeds(u, v) && status1[dag.execs()[u].uuid].doomed() by {
            let v = choose|v: int|
                0 <= v < dag.execs().len() && (#[trigger] dag.execs()[v]).uuid == x && dag.feeds(
                    i,
                    v,
                );
            assert(dag.feeds(i, v) && status1[dag.execs()[i].uuid].doomed());
        }
    }
}

/// Skipping executions that wait leaves the queue and the jobs as they
/// are.
proof fn lemma_skips_keep(
    dag: &ExecutionDAGData,
    status0: Map<ExecutionUuid, ExecutionState>,
    missing0: Map<ExecutionUuid, usize>,
    skipped: Seq<ExecutionUuid>,
    status1: Map<ExecutionUuid, ExecutionState>,
    missing1: Map<ExecutionUuid, usize>,
    queue: Seq<ReadyExec>,
    workers: Seq<WorkerSlot>,
)
    requires
        skipped_to(status0, missing0, skipped, status1, missing1),
        queue_ok(dag, status0, queue),
        workers_ok(status0, workers),
    ensures
        queue_ok(dag, status1, queue),
        workers_ok(status1, workers),
{
    reveal(queue_ok);
    reveal(workers_ok);
    assert forall|e: ExecutionUuid|
        (stands(status1, e, ExecutionState::Ready) <==> stands(status0, e, ExecutionState::Ready))
            && (stands(status1, e, ExecutionState::Running) <==> stands(
            status0,
            e,
            ExecutionState::Running,
        )) by {
        assert(status1.contains_key(e) <==> status0.contains_key(e));
        if status0.contains_key(e) {
            if skipped.contains(e) {
                assert(stands(status0, e, ExecutionState::Waiting));
            }
        }
    }
    assert forall|e: ExecutionUuid| #[trigger]
        crate::queue::queued(queue, e) <==> stands(status1, e, ExecutionState::Ready) by {
        assert(crate::queue::queued(queue, e) <==> stands(status0, e, ExecutionState::Ready));
    }
    assert forall|e: ExecutionUuid| #[trigger]
        assigned(workers, e) <==> stands(status1, e, ExecutionState::Running) by {
        assert(assigned(workers, e) <==> stands(status0, e, ExecutionState::Running));
    }
}

impl ExecutorData {
    /// Whether `new` has the graph of `self`, what the client watches
    /// and the index of dependents.
    pub open spec fn same_graph(&self, new: &ExecutorData) -> bool {
        new.dag == self.dag && new.callbacks == self.callbacks && new.dependents == self.dependents
    }

    /// Whether `new` is `self` after the execution `uuid` failed, with
    /// `skipped` the executions that were skipped: where a worker ran
    /// `uuid`, the worker left, `uuid` has failed, and the executions of
    /// `skipped`, which waited, are skipped; else nothing changed.
    pub open spec fn failed_to(
        &self,
        uuid: ExecutionUuid,
        new: &ExecutorData,
        skipped: Seq<ExecutionUuid>,
    ) -> bool {
        &&& self.same_graph(new)
        &&& new.evaluating == self.evaluating
        &&& new.ready_execs == self.ready_execs
        &&& new.file_keys == self.file_keys
        &&& new.outcomes == self.outcomes
        &&& !assigned(self.waiting_workers@, uuid) ==> skipped.len() == 0 && new.status
            == self.status && new.missing_deps == self.missing_deps && new.waiting_workers
            == self.waiting_workers
        &&& assigned(self.waiting_workers@, uuid) ==> new.waiting_workers@
            == self.waiting_workers@.remove(job_slot(self.waiting_workers@, uuid)) && skipped_to(
            self.status@.insert(uuid, ExecutionState::Failed),
            self.missing_deps@,
            skipped,
            new.status@,
            new.missing_deps@,
        )
    }

    /// Records that the execution `uuid`, which a worker runs, has
    /// failed: the worker leaves the list, and the executions that need,
    /// directly or through others, a file of the execution are skipped.
    /// Returns the executions that were skipped. Where no worker runs
    /// `uuid`, nothing changes.
    pub fn exec_failed(&mut self, uuid: ExecutionUuid) -> (skipped: Vec<ExecutionUuid>)
        requires
            old(self).wf(),
        ensures
            final(self).wf(),
            old(self).failed_to(uuid, final(self), skipped@),
    {
        let at = find_job(&self.waiting_workers, uuid);
        match at {
            None => Vec::new(),
            Some(k) => {
                let ghost status0 = self.status@;
                let ghost ready = self.ready_files();
                let ghost workers0 = self.waiting_workers@;
                proof {
                    lemma_finish(
                        &self.dag,
                        status0,
                        self.missing_deps@,
                        ready,
                        self.ready_execs@,
                        workers0,
                        k as int,
                        ExecutionState::Failed,
                    );
                }
                let place = self.dag.find_execution(uuid);
                assert(place is Some) by {
                    reveal(cover_ok);
                    assert(self.dag.has_execution(uuid));
                }
                let place = place.unwrap();
                self.waiting_workers.remove(k);
                self.status.insert(uuid, ExecutionState::Failed);
                let mut work: Vec<ExecutionUuid> = Vec::new();
                list_waiters(&self.dag, &self.dependents, place, &mut work);
                proof {
                    lemma_failure(
                        &self.dag,
                        status0,
                        self.missing_deps@,
                        ready,
                        self.dependents@,
                        place as int,
                    );
                    assert(work@ == waiters_of_products(
                        &self.dag,
                        self.dependents@,
                        place as int,
                        self.dag.execs()[place as int].makes().len(),
                    ));
                }
                let ghost status1 = self.status@;
                let ghost missing1 = self.missing_deps@;
                let skipped = skip_all(
                    &self.dag,
                    &self.dependents,
                    &mut self.status,
                    &mut self.missing_deps,
                    work,
                    Ghost(ready),
                );
                proof {
                    lemma_skips_keep(
                        &self.dag,
                        status1,
                        missing1,
                        skipped@,
                        self.status@,
                        self.missing_deps@,
                        self.ready_execs@,
                        self.waiting_workers@,
                    );
                }
                skipped
            },
        }
    }
}

/// The keys `known` with, for each of the first `n` of `files`, the key
/// at the same place in `keys`.
pub open spec fn with_keys(
    known: Map<FileUuid, FileKey>,
    files: Seq<FileUuid>,
    keys: Seq<FileKey>,
    n: nat,
) -> Map<FileUuid, FileKey>
    decreases n,
{
    if n == 0 {
        known
    } else {
        with_keys(known, files, keys, (n - 1) as nat).insert(files[n - 1], keys[n - 1])
    }
}

/// The files with a key are those that had one, and the first files of
/// the list.
proof fn lemma_with_keys(
    known: Map<FileUuid, FileKey>,
    files: Seq<FileUuid>,
    keys: Seq<FileKey>,
    n: nat,
)
    requires
        n <= files.len(),
    ensures
        forall|f: FileUuid|
            with_keys(known, files, keys, n).contains_key(f) <==> known.contains_key(f)
                || files.take(n as int).contains(f),
    decreases n,
{
    if n > 0 {
        lemma_with_keys(known, files, keys, (n - 1) as nat);
        let front = files.take(n - 1);
        let all = files.take(n as int);
        assert(all == front.push(files[n - 1]));
        assert forall|f: FileUuid|
            with_keys(known, files, keys, n).contains_key(f) <==> known.contains_key(f)
                || all.contains(f) by {
            let before = with_keys(known, files, keys, (n - 1) as nat);
            assert(before.contains_key(f) <==> known.contains_key(f) || front.contains(f));
            assert(with_keys(known, files, keys, n) == before.insert(files[n - 1], keys[n - 1]));
            if front.contains(f) {
                let k = choose|k: int| 0 <= k < front.len() && front[k] == f;
                assert(all[k] == f);
            }
            if all.contains(f) {
                let k = choose|k: int| 0 <= k < all.len() && all[k] == f;
                if k < n - 1 {
                    assert(front[k] == f);
                }
            }
            if f == files[n - 1] {
                assert(all[n - 1] == f);
            }
        }
    } else {
        assert(files.take(0).len() == 0);
    }
}

/// More files that are there leave no more uses missing.
pub proof fn lemma_unready_fewer(needs: Seq<FileUuid>, fewer: Set<FileUuid>, more: Set<FileUuid>)
    requires
        fewer.subset_of(more),
    ensures
        unready(needs, more) <= unready(needs, fewer),
    decreases needs.len(),
{
    if needs.len() > 0 {
        lemma_unready_fewer(needs.drop_last(), fewer, more);
    }
}

/// Executions that can start as files come can start once all the files
/// have come.
pub proof fn lemma_woken_twice(
    dag: &ExecutionDAGData,
    status0: Map<ExecutionUuid, ExecutionState>,
    ready1: Set<FileUuid>,
    status1: Map<ExecutionUuid, ExecutionState>,
    ready2: Set<FileUuid>,
    status2: Map<ExecutionUuid, ExecutionState>,
)
    requires
        woken(dag, status0, ready1, status1),
        woken(dag, status1, ready2, status2),
        ready1.subset_of(ready2),
    ensures
        woken(dag, status0, ready2, status2),
{
    assert forall|i: int| 0 <= i < dag.execs().len() implies status2[(
    #[trigger] dag.execs()[i]).uuid] == if status0[dag.execs()[i].uuid] is Waiting && unready(
        dag.execs()[i].needs(),
        ready2,
    ) == 0 {
        ExecutionState::Ready
    } else {
        status0[dag.execs()[i].uuid]
    } by {
        lemma_unready_fewer(dag.execs()[i].needs(), ready1, ready2);
    }
}

/// No execution that has all its files waits.
pub proof fn lemma_woken_none(
    dag: &ExecutionDAGData,
    status: Map<ExecutionUuid, ExecutionState>,
    missing: Map<ExecutionUuid, usize>,
    ready: Set<FileUuid>,
)
    requires
        counts_ok(dag, status, missing, ready),
    ensures
        woken(dag, status, ready, status),
{
    reveal(counts_ok);
}

/// The files of an execution that did not return zero are not there,
/// and no two of them are the same.
proof fn lemma_products_fresh(
    dag: &ExecutionDAGData,
    status: Map<ExecutionUuid, ExecutionState>,
    ready: Set<FileUuid>,
    i: int,
)
    requires
        dag.wf(),
        dag.valid(),
        keys_ok(dag, status, ready),
        0 <= i < dag.execs().len(),
        !(status[dag.execs()[i].uuid] is Succeeded),
    ensures
        forall|k: int| 0 <= k < dag.execs()[i].makes().len() ==> !ready.contains(
            #[trigger] dag.execs()[i].makes()[k],
        ),
        dag.execs()[i].makes().no_duplicates(),
{
    reveal(keys_ok);
    let made = dag.execs()[i].makes();
    assert forall|k: int| 0 <= k < made.len() implies !ready.contains(#[trigger] made[k]) by {
        let f = made[k];
        if ready.contains(f) {
            assert(made.contains(f));
            lemma_single_producer(dag, f, i, i);
            let j = choose|j: int|
                0 <= j < dag.execs().len() && (#[trigger] dag.execs()[j]).makes().contains(f)
                    && status[dag.execs()[j].uuid] is Succeeded;
            lemma_single_producer(dag, f, i, j);
        }
    }
    assert forall|a: int, b: int| 0 <= a < made.len() && 0 <= b < made.len() && a != b implies made[a]
        != made[b] by {
        lemma_product_is_source(dag, i, a);
        lemma_product_is_source(dag, i, b);
    }
}

impl ExecutorData {
    /// Whether `new` is `self` after the execution `uuid` returned zero
    /// and made its files, with the keys `keys`: where a worker ran
    /// `uuid` and there is one key for each product (`done`), the worker
    /// left, `uuid` has succeeded, its files are there, and the
    /// executions that waited for nothing else can start; else nothing
    /// changed.
    pub open spec fn succeeded_to(
        &self,
        uuid: ExecutionUuid,
        keys: Seq<FileKey>,
        new: &ExecutorData,
        done: bool,
    ) -> bool {
        &&& self.same_graph(new)
        &&& new.evaluating == self.evaluating
        &&& new.outcomes == self.outcomes
        &&& done == (assigned(self.waiting_workers@, uuid) && keys.len()
            == self.execs()[crate::scheduler::place_of(self.execs(), uuid)].makes().len())
        &&& !done ==> new.status == self.status && new.missing_deps == self.missing_deps
            && new.waiting_workers == self.waiting_workers && new.ready_execs == self.ready_execs
            && new.file_keys == self.file_keys
        &&& done ==> new.waiting_workers@ == self.waiting_workers@.remove(
            job_slot(self.waiting_workers@, uuid),
        ) && new.file_keys@ == with_keys(
            self.file_keys@,
            self.execs()[crate::scheduler::place_of(self.execs(), uuid)].makes(),
            keys,
            keys.len(),
        ) && woken(
            &self.dag,
            self.status@.insert(uuid, ExecutionState::Succeeded),
            new.ready_files(),
            new.status@,
        )
    }

    /// Records that the execution `uuid`, which a worker runs, has
    /// returned zero and that its files are there, with the keys `keys`
    /// in the order of its products: the worker leaves the list, and the
    /// executions that waited for nothing else can start. Where no worker
    /// runs `uuid`, or `keys` has not one key for each product, nothing
    /// changes and `false` is returned.
    pub fn exec_succeeded(&mut self, uuid: ExecutionUuid, keys: &Vec<FileKey>) -> (done: bool)
        requires
            old(self).wf(),
        ensures
            final(self).wf(),
            old(self).succeeded_to(uuid, keys@, final(self), done),
    {
        let at = find_job(&self.waiting_workers, uuid);
        let k = match at {
            None => {
                return false;
            },
            Some(k) => k,
        };
        let ghost status0 = self.status@;
        let ghost ready0 = self.ready_files();
        let ghost workers0 = self.waiting_workers@;
        proof {
            lemma_finish(
                &self.dag,
                status0,
                self.missing_deps@,
                ready0,
                self.ready_execs@,
                workers0,
                k as int,
                ExecutionState::Succeeded,
            );
        }
        let place = self.dag.find_execution(uuid);
        assert(place is Some) by {
            reveal(cover_ok);
            assert(self.dag.has_execution(uuid));
        }
        let place = place.unwrap();
        proof {
            lemma_place(&self.dag, place as int);
            lemma_products_fresh(&self.dag, status0, ready0, place as int);
        }
        let made = self.dag.executions()[place].products();
        if made.len() != keys.len() {
            return false;
        }
        self.waiting_workers.remove(k);
        self.status.insert(uuid, ExecutionState::Succeeded);
        let ghost status1 = self.status@;
        proof {
            lemma_woken_none(&self.dag, status1, self.missing_deps@, ready0);
        }
        let mut j: usize = 0;
        while j < made.len()
            invariant
                j <= made@.len(),
                made@.len() == keys@.len(),
                place < self.execs().len(),
                made@ == self.execs()[place as int].makes(),
                made@.no_duplicates(),
                forall|k: int| 0 <= k < made@.len() ==> !ready0.contains(#[trigger] made@[k]),
                self.wf(),
                self.dag == old(self).dag,
                self.callbacks == old(self).callbacks,
                self.evaluating == old(self).evaluating,
                self.dependents == old(self).dependents,
                self.outcomes == old(self).outcomes,
                self.waiting_workers@ == workers0.remove(k as int),
                self.execs()[place as int].uuid == uuid,
                status1.contains_key(uuid),
                status1[uuid] is Succeeded,
                crate::scheduler::same_fate(status1, self.status@),
                ready0 == old(self).ready_files(),
                ready0.subset_of(self.ready_files()),
                self.file_keys@ == with_keys(old(self).file_keys@, made@, keys@, j as nat),
                woken(&self.dag, status1, self.ready_files(), self.status@),
            decreases made@.len() - j,
        {
            let ghost status2 = self.status@;
            let ghost ready2 = self.ready_files();
            proof {
                lemma_with_keys(old(self).file_keys@, made@, keys@, j as nat);
                assert(!self.file_keys@.contains_key(made@[j as int])) by {
                    if self.file_keys@.contains_key(made@[j as int]) {
                        if old(self).file_keys@.contains_key(made@[j as int]) {
                            assert(ready0.contains(made@[j as int]));
                        } else {
                            let front = made@.take(j as int);
                            let k = choose|k: int|
                                0 <= k < front.len() && front[k] == made@[j as int];
                            assert(made@[k] == made@[j as int]);
                        }
                    }
                }
                assert(self.execs()[place as int].makes().contains(made@[j as int]));
                assert(sourced(&self.dag, self.status@, made@[j as int]));
            }
            self.mark_ready(made[j], keys[j]);
            proof {
                assert(ready2.subset_of(self.ready_files()));
                lemma_woken_twice(
                    &self.dag,
                    status1,
                    ready2,
                    status2,
                    self.ready_files(),
                    self.status@,
                );
            }
            j += 1;
        }
        true
    }
}

} // verus!
