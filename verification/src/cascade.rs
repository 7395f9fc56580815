//! What follows when an execution fails: the executions that need its
//! files, and those that need theirs, are skipped.

use crate::check_dag::lemma_single_producer;
use crate::dag::{ExecutionDAGData, ExecutionUuid, FileUuid};
use crate::queue::{lemma_occurs, occurrences};
use crate::scheduler::{
    counts_ok, cover_ok, index_ok, keys_ok, lemma_place, lemma_wanted, settled_ok, skips_ok,
    stands, unready, waiters_of, ExecutionState,
};
use std::collections::HashMap;
use vstd::prelude::*;

verus! {

broadcast use vstd::std_specs::hash::group_hash_axioms;

/// Whether each execution that needs a file of an execution that failed
/// or was skipped is skipped, or listed in `work` to be.
#[verifier::opaque]
pub open spec fn settling(
    dag: &ExecutionDAGData,
    status: Map<ExecutionUuid, ExecutionState>,
    work: Seq<ExecutionUuid>,
) -> bool {
    forall|u: int, v: int|
        0 <= u < dag.execs().len() && 0 <= v < dag.execs().len() && #[trigger] dag.feeds(u, v)
            && status[dag.execs()[u].uuid].doomed() ==> status[dag.execs()[v].uuid] is Skipped
            || work.contains(dag.execs()[v].uuid)
}

/// Whether each execution listed in `work` needs a file of an execution
/// that failed or was skipped.
#[verifier::opaque]
pub open spec fn caused(
    dag: &ExecutionDAGData,
    status: Map<ExecutionUuid, ExecutionState>,
    work: Seq<ExecutionUuid>,
) -> bool {
    forall|w: ExecutionUuid| #[trigger]
        work.contains(w) ==> exists|u: int, v: int|
            0 <= u < dag.execs().len() && 0 <= v < dag.execs().len() && dag.execs()[v].uuid == w
                && #[trigger] dag.feeds(u, v) && status[dag.execs()[u].uuid].doomed()
}

/// Where no use of a file is missing, every file is there.
pub proof fn lemma_unready_zero(needs: Seq<FileUuid>, ready: Set<FileUuid>)
    requires
        unready(needs, ready) == 0,
    ensures
        forall|k: int| 0 <= k < needs.len() ==> ready.contains(#[trigger] needs[k]),
    decreases needs.len(),
{
    if needs.len() > 0 {
        lemma_unready_zero(needs.drop_last(), ready);
        assert forall|k: int| 0 <= k < needs.len() implies ready.contains(#[trigger] needs[k]) by {
            if k < needs.len() - 1 {
                assert(needs.drop_last()[k] == needs[k]);
            }
        }
    }
}

/// An execution that needs a file of one that failed or was skipped
/// never had all its files: it waits, or it is skipped.
pub proof fn lemma_fed_by_doomed(
    dag: &ExecutionDAGData,
    status: Map<ExecutionUuid, ExecutionState>,
    missing: Map<ExecutionUuid, usize>,
    ready: Set<FileUuid>,
    u: int,
    v: int,
)
    requires
        dag.wf(),
        dag.valid(),
        counts_ok(dag, status, missing, ready),
        keys_ok(dag, status, ready),
        0 <= u < dag.execs().len(),
        0 <= v < dag.execs().len(),
        dag.feeds(u, v),
        !(status[dag.execs()[u].uuid] is Succeeded),
    ensures
        !status[dag.execs()[v].uuid].supplied(),
{
    reveal(counts_ok);
    reveal(keys_ok);
    if status[dag.execs()[v].uuid].supplied() {
        let f = choose|f: FileUuid|
            dag.execs()[u].makes().contains(f) && #[trigger] dag.execs()[v].needs().contains(f);
        lemma_unready_zero(dag.execs()[v].needs(), ready);
        assert(ready.contains(f));
        lemma_single_producer(dag, f, u, u);
        let i = choose|i: int|
            0 <= i < dag.execs().len() && (#[trigger] dag.execs()[i]).makes().contains(f)
                && status[dag.execs()[i].uuid] is Succeeded;
        lemma_single_producer(dag, f, u, i);
    }
}

/// The executions listed under the files that the `i`-th execution makes.
pub open spec fn waiters_of_products(
    dag: &ExecutionDAGData,
    index: Map<FileUuid, Vec<ExecutionUuid>>,
    i: int,
    n: nat,
) -> Seq<ExecutionUuid>
    decreases n,
{
    if n == 0 {
        Seq::empty()
    } else {
        waiters_of_products(dag, index, i, (n - 1) as nat) + waiters_of(
            index,
            dag.execs()[i].makes()[n - 1],
        )
    }
}

/// The executions listed under the files of an execution are those that
/// it feeds.
pub proof fn lemma_waiters_of_products(
    dag: &ExecutionDAGData,
    index: Map<FileUuid, Vec<ExecutionUuid>>,
    i: int,
    n: nat,
)
    requires
        dag.wf(),
        index_ok(dag, index),
        0 <= i < dag.execs().len(),
        n <= dag.execs()[i].makes().len(),
    ensures
        forall|v: int|
            0 <= v < dag.execs().len() && (exists|k: int|
                0 <= k < n && (#[trigger] dag.execs()[v].needs().contains(dag.execs()[i].makes()[k])))
                ==> waiters_of_products(dag, index, i, n).contains((#[trigger] dag.execs()[v]).uuid),
        forall|w: ExecutionUuid| #[trigger]
            waiters_of_products(dag, index, i, n).contains(w) ==> exists|v: int|
                0 <= v < dag.execs().len() && (#[trigger] dag.execs()[v]).uuid == w && dag.feeds(
                    i,
                    v,
                ),
    decreases n,
{
    reveal(index_ok);
    if n > 0 {
        lemma_waiters_of_products(dag, index, i, (n - 1) as nat);
        let front = waiters_of_products(dag, index, i, (n - 1) as nat);
        let f = dag.execs()[i].makes()[n - 1];
        let last = waiters_of(index, f);
        let all = waiters_of_products(dag, index, i, n);
        assert(all == front + last);
        assert forall|v: int|
            0 <= v < dag.execs().len() && (exists|k: int|
                0 <= k < n && (#[trigger] dag.execs()[v].needs().contains(
                    dag.execs()[i].makes()[k],
                ))) implies all.contains((#[trigger] dag.execs()[v]).uuid) by {
            let k = choose|k: int|
                0 <= k < n && (#[trigger] dag.execs()[v].needs().contains(dag.execs()[i].makes()[k]));
            let w = dag.execs()[v].uuid;
            if k < n - 1 {
                assert(front.contains(w));
                let at = choose|at: int| 0 <= at < front.len() && front[at] == w;
                assert(all[at] == w);
            } else {
                lemma_wanted(dag.execs(), w, f);
                lemma_occurs(dag.execs()[v].needs(), f);
                assert(occurrences(last, w) == crate::scheduler::wanted(dag.execs(), w, f));
                lemma_occurs(last, w);
                let at = choose|at: int| 0 <= at < last.len() && last[at] == w;
                assert(all[front.len() + at] == w);
            }
        }
        assert forall|w: ExecutionUuid| #[trigger] all.contains(w) implies exists|v: int|
            0 <= v < dag.execs().len() && (#[trigger] dag.execs()[v]).uuid == w && dag.feeds(
                i,
                v,
            ) by {
            let at = choose|at: int| 0 <= at < all.len() && all[at] == w;
            if at < front.len() {
                assert(front[at] == w);
                assert(front.contains(w));
            } else {
                assert(last[at - front.len()] == w);
                assert(last.contains(w));
                lemma_occurs(last, w);
                assert(occurrences(last, w) == crate::scheduler::wanted(dag.execs(), w, f));
                lemma_wanted(dag.execs(), w, f);
                assert(exists|v: int|
                    0 <= v < dag.execs().len() && (#[trigger] dag.execs()[v]).uuid == w);
                let v = choose|v: int| 0 <= v < dag.execs().len() && (#[trigger] dag.execs()[v]).uuid == w;
                lemma_occurs(dag.execs()[v].needs(), f);
                assert(dag.execs()[i].makes().contains(f));
                assert(dag.feeds(i, v));
            }
        }
    }
}

/// Lists in `work` the executions that need a file of the `i`-th
/// execution.
pub(crate) fn list_waiters(
    dag: &ExecutionDAGData,
    index: &HashMap<FileUuid, Vec<ExecutionUuid>>,
    i: usize,
    work: &mut Vec<ExecutionUuid>,
)
    requires
        i < dag.execs().len(),
    ensures
        final(work)@ == old(work)@ + waiters_of_products(
            dag,
            index@,
            i as int,
            dag.execs()[i as int].makes().len(),
        ),
{
    let made = dag.executions()[i].products();
    let mut k: usize = 0;
    assert(work@ == old(work)@ + waiters_of_products(dag, index@, i as int, 0));
    while k < made.len()
        invariant
            k <= made@.len(),
            i < dag.execs().len(),
            made@ == dag.execs()[i as int].makes(),
            work@ == old(work)@ + waiters_of_products(dag, index@, i as int, k as nat),
        decreases made@.len() - k,
    {
        let ghost before = work@;
        match index.get(&made[k]) {
            Some(list) => {
                let mut j: usize = 0;
                assert(work@ == before + list@.take(0));
                while j < list.len()
                    invariant
                        j <= list@.len(),
                        work@ == before + list@.take(j as int),
                    decreases list@.len() - j,
                {
                    work.push(list[j]);
                    assert(list@.take(j + 1) == list@.take(j as int).push(list@[j as int]));
                    assert(work@ == before + list@.take(j + 1));
                    j += 1;
                }
                assert(list@.take(j as int) == list@);
            },
            None => {
                assert(work@ == before + Seq::<ExecutionUuid>::empty());
            },
        }
        proof {
            let more = waiters_of(index@, made@[k as int]);
            assert(work@ == before + more);
            assert(old(work)@ + waiters_of_products(dag, index@, i as int, (k + 1) as nat) == (
            old(work)@ + waiters_of_products(dag, index@, i as int, k as nat)) + more);
        }
        k += 1;
    }
}

/// Whether `status1` and `missing1` are `status0` and `missing0` after
/// the executions listed in `skipped`, which waited, were skipped.
pub open spec fn skipped_to(
    status0: Map<ExecutionUuid, ExecutionState>,
    missing0: Map<ExecutionUuid, usize>,
    skipped: Seq<ExecutionUuid>,
    status1: Map<ExecutionUuid, ExecutionState>,
    missing1: Map<ExecutionUuid, usize>,
) -> bool {
    &&& skipped.no_duplicates()
    &&& status1.dom() == status0.dom()
    &&& forall|e: ExecutionUuid| #[trigger]
        skipped.contains(e) ==> stands(status0, e, ExecutionState::Waiting)
    &&& forall|e: ExecutionUuid| #[trigger]
        status0.contains_key(e) ==> status1[e] == if skipped.contains(e) {
            ExecutionState::Skipped
        } else {
            status0[e]
        }
    &&& forall|e: ExecutionUuid| #[trigger]
        missing1.contains_key(e) <==> missing0.contains_key(e) && !skipped.contains(e)
    &&& forall|e: ExecutionUuid| #[trigger]
        missing1.contains_key(e) ==> missing1[e] == missing0[e]
}

/// Skipping an execution that waits, and listing those that it feeds,
/// keeps the state together.
proof fn lemma_skip_one(
    dag: &ExecutionDAGData,
    status: Map<ExecutionUuid, ExecutionState>,
    missing: Map<ExecutionUuid, usize>,
    ready: Set<FileUuid>,
    index: Map<FileUuid, Vec<ExecutionUuid>>,
    work: Seq<ExecutionUuid>,
    i: int,
    work1: Seq<ExecutionUuid>,
)
    requires
        dag.wf(),
        dag.valid(),
        cover_ok(dag, status),
        counts_ok(dag, status, missing, ready),
        index_ok(dag, index),
        keys_ok(dag, status, ready),
        skips_ok(dag, status),
        settling(dag, status, work),
        caused(dag, status, work),
        work.len() > 0,
        0 <= i < dag.execs().len(),
        dag.execs()[i].uuid == work.last(),
        missing.contains_key(work.last()),
        work1 == work.drop_last() + waiters_of_products(
            dag,
            index,
            i,
            dag.execs()[i].makes().len(),
        ),
    ensures
        stands(status, work.last(), ExecutionState::Waiting),
        cover_ok(dag, status.insert(work.last(), ExecutionState::Skipped)),
        counts_ok(
            dag,
            status.insert(work.last(), ExecutionState::Skipped),
            missing.remove(work.last()),
            ready,
        ),
        keys_ok(dag, status.insert(work.last(), ExecutionState::Skipped), ready),
        skips_ok(dag, status.insert(work.last(), ExecutionState::Skipped)),
        settling(dag, status.insert(work.last(), ExecutionState::Skipped), work1),
        caused(dag, status.insert(work.last(), ExecutionState::Skipped), work1),
{
    let w = work.last();
    let status1 = status.insert(w, ExecutionState::Skipped);
    let missing1 = missing.remove(w);
    let more = waiters_of_products(dag, index, i, dag.execs()[i].makes().len());
    lemma_waiters_of_products(dag, index, i, dag.execs()[i].makes().len());
    assert(stands(status, w, ExecutionState::Waiting)) by {
        reveal(counts_ok);
    }
    assert forall|j: int| 0 <= j < dag.execs().len() implies (status1[(
    #[trigger] dag.execs()[j]).uuid] == if j == i {
        ExecutionState::Skipped
    } else {
        status[dag.execs()[j].uuid]
    }) by {
        lemma_place(dag, j);
        lemma_place(dag, i);
    }
    assert(cover_ok(dag, status1)) by {
        reveal(cover_ok);
        assert(status1.dom() =~= status.dom());
    }
    assert(counts_ok(dag, status1, missing1, ready)) by {
        reveal(counts_ok);
        assert forall|e: ExecutionUuid| #[trigger]
            missing1.contains_key(e) <==> stands(status1, e, ExecutionState::Waiting) by {
            assert(missing.contains_key(e) <==> stands(status, e, ExecutionState::Waiting));
        }
    }
    assert(keys_ok(dag, status1, ready)) by {
        reveal(keys_ok);
        assert forall|f: FileUuid| #[trigger] ready.contains(f) implies dag.provided_uuids().contains(
            f,
        ) || exists|j: int|
            0 <= j < dag.execs().len() && (#[trigger] dag.execs()[j]).makes().contains(f)
                && status1[dag.execs()[j].uuid] is Succeeded by {
            if !dag.provided_uuids().contains(f) {
                let j = choose|j: int|
                    0 <= j < dag.execs().len() && (#[trigger] dag.execs()[j]).makes().contains(f)
                        && status[dag.execs()[j].uuid] is Succeeded;
                assert(status1[dag.execs()[j].uuid] is Succeeded);
            }
        }
    }
    let (cu, cv) = {
        reveal(caused);
        assert(work.contains(w)) by {
            assert(work[work.len() - 1] == w);
        }
        choose|u: int, v: int|
            0 <= u < dag.execs().len() && 0 <= v < dag.execs().len() && dag.execs()[v].uuid == w
                && #[trigger] dag.feeds(u, v) && status[dag.execs()[u].uuid].doomed()
    };
    assert(cv == i);
    assert(cu != i);
    assert(skips_ok(dag, status1)) by {
        reveal(skips_ok);
        assert forall|v: int|
            0 <= v < dag.execs().len() && status1[(#[trigger] dag.execs()[v]).uuid] is Skipped implies exists|
            u: int,
        |
            0 <= u < dag.execs().len() && #[trigger] dag.feeds(u, v)
                && status1[dag.execs()[u].uuid].doomed() by {
            if v == i {
                assert(dag.feeds(cu, v) && status1[dag.execs()[cu].uuid].doomed());
            } else {
                let u = choose|u: int|
                    0 <= u < dag.execs().len() && #[trigger] dag.feeds(u, v)
                        && status[dag.execs()[u].uuid].doomed();
                assert(status1[dag.execs()[u].uuid].doomed());
            }
        }
    }
    assert(settling(dag, status1, work1)) by {
        reveal(settling);
        assert forall|u: int, v: int|
            0 <= u < dag.execs().len() && 0 <= v < dag.execs().len() && #[trigger] dag.feeds(u, v)
                && status1[dag.execs()[u].uuid].doomed() implies status1[dag.execs()[v].uuid] is Skipped
            || work1.contains(dag.execs()[v].uuid) by {
            let x = dag.execs()[v].uuid;
            if v == i {
            } else if u == i {
                let f = choose|f: FileUuid|
                    dag.execs()[u].makes().contains(f) && #[trigger] dag.execs()[v].needs().contains(
                        f,
                    );
                let k = choose|k: int|
                    0 <= k < dag.execs()[i].makes().len() && dag.execs()[i].makes()[k] == f;
                assert(dag.execs()[v].needs().contains(dag.execs()[i].makes()[k]));
                assert(more.contains(x));
                let at = choose|at: int| 0 <= at < more.len() && more[at] == x;
                assert(work1[work.drop_last().len() + at] == x);
            } else {
                if !(status[x] is Skipped) {
                    assert(work.contains(x));
                    let at = choose|at: int| 0 <= at < work.len() && work[at] == x;
                    assert(x != w);
                    assert(work1[at] == x);
                }
            }
        }
    }
    assert(caused(dag, status1, work1)) by {
        reveal(caused);
        assert forall|x: ExecutionUuid| #[trigger] work1.contains(x) implies exists|u: int, v: int|
            0 <= u < dag.execs().len() && 0 <= v < dag.execs().len() && dag.execs()[v].uuid == x
                && #[trigger] dag.feeds(u, v) && status1[dag.execs()[u].uuid].doomed() by {
            let at = choose|at: int| 0 <= at < work1.len() && work1[at] == x;
            if at < work.drop_last().len() {
                assert(work[at] == x);
                assert(work.contains(x));
                let (u, v) = choose|u: int, v: int|
                    0 <= u < dag.execs().len() && 0 <= v < dag.execs().len() && dag.execs()[v].uuid
                        == x && #[trigger] dag.feeds(u, v) && status[dag.execs()[u].uuid].doomed();
                assert(dag.feeds(u, v) && status1[dag.execs()[u].uuid].doomed());
            } else {
                assert(more[at - work.drop_last().len()] == x);
                assert(more.contains(x));
                let v = choose|v: int|
                    0 <= v < dag.execs().len() && (#[trigger] dag.execs()[v]).uuid == x && dag.feeds(
                        i,
                        v,
                    );
                assert(dag.feeds(i, v) && status1[dag.execs()[i].uuid].doomed());
            }
        }
    }
}

/// An execution of the list that does not wait is skipped already.
proof fn lemma_skip_none(
    dag: &ExecutionDAGData,
    status: Map<ExecutionUuid, ExecutionState>,
    missing: Map<ExecutionUuid, usize>,
    ready: Set<FileUuid>,
    work: Seq<ExecutionUuid>,
)
    requires
        dag.wf(),
        dag.valid(),
        cover_ok(dag, status),
        counts_ok(dag, status, missing, ready),
        keys_ok(dag, status, ready),
        settling(dag, status, work),
        caused(dag, status, work),
        work.len() > 0,
        !missing.contains_key(work.last()),
    ensures
        settling(dag, status, work.drop_last()),
        caused(dag, status, work.drop_last()),
{
    let w = work.last();
    let work1 = work.drop_last();
    assert(caused(dag, status, work1)) by {
        reveal(caused);
        assert forall|x: ExecutionUuid| #[trigger] work1.contains(x) implies work.contains(x) by {
            let at = choose|at: int| 0 <= at < work1.len() && work1[at] == x;
            assert(work[at] == x);
        }
    }
    assert(settling(dag, status, work1)) by {
        reveal(settling);
        assert forall|u: int, v: int|
            0 <= u < dag.execs().len() && 0 <= v < dag.execs().len() && #[trigger] dag.feeds(u, v)
                && status[dag.execs()[u].uuid].doomed() implies status[dag.execs()[v].uuid] is Skipped
            || work1.contains(dag.execs()[v].uuid) by {
            let x = dag.execs()[v].uuid;
            if !(status[x] is Skipped) {
                assert(work.contains(x));
                if x == w {
                    lemma_fed_by_doomed(dag, status, missing, ready, u, v);
                    lemma_place(dag, v);
                    reveal(cover_ok);
                    reveal(counts_ok);
                    assert(missing.contains_key(x) <==> stands(status, x, ExecutionState::Waiting));
                    assert(status.contains_key(x));
                } else {
                    let at = choose|at: int| 0 <= at < work.len() && work[at] == x;
                    assert(work1[at] == x);
                }
            }
        }
    }
}

/// Skips the executions of `work` that wait, and then those that need
/// their files, and returns the executions that were skipped, in the
/// order in which they were.
pub(crate) fn skip_all(
    dag: &ExecutionDAGData,
    index: &HashMap<FileUuid, Vec<ExecutionUuid>>,
    status: &mut HashMap<ExecutionUuid, ExecutionState>,
    missing: &mut HashMap<ExecutionUuid, usize>,
    work: Vec<ExecutionUuid>,
    Ghost(ready): Ghost<Set<FileUuid>>,
) -> (skipped: Vec<ExecutionUuid>)
    requires
        dag.wf(),
        dag.valid(),
        cover_ok(dag, old(status)@),
        counts_ok(dag, old(status)@, old(missing)@, ready),
        index_ok(dag, index@),
        keys_ok(dag, old(status)@, ready),
        skips_ok(dag, old(status)@),
        settling(dag, old(status)@, work@),
        caused(dag, old(status)@, work@),
    ensures
        skipped_to(old(status)@, old(missing)@, skipped@, final(status)@, final(missing)@),
        cover_ok(dag, final(status)@),
        counts_ok(dag, final(status)@, final(missing)@, ready),
        keys_ok(dag, final(status)@, ready),
        skips_ok(dag, final(status)@),
        settled_ok(dag, final(status)@),
{
    let mut work = work;
    let mut skipped: Vec<ExecutionUuid> = Vec::new();
    while work.len() > 0
        invariant
            dag.wf(),
            dag.valid(),
            cover_ok(dag, status@),
            counts_ok(dag, status@, missing@, ready),
            index_ok(dag, index@),
            keys_ok(dag, status@, ready),
            skips_ok(dag, status@),
            settling(dag, status@, work@),
            caused(dag, status@, work@),
            skipped_to(old(status)@, old(missing)@, skipped@, status@, missing@),
        decreases missing@.len(), work@.len(),
    {
        let ghost work0 = work@;
        let ghost status0 = status@;
        let ghost missing0 = missing@;
        let ghost skipped0 = skipped@;
        let uuid = work[work.len() - 1];
        if missing.contains_key(&uuid) {
            let at = dag.find_execution(uuid);
            assert(at is Some) by {
                reveal(cover_ok);
                reveal(counts_ok);
                assert(missing0.contains_key(uuid) <==> stands(
                    status0,
                    uuid,
                    ExecutionState::Waiting,
                ));
                assert(status0.contains_key(uuid));
                assert(dag.has_execution(uuid));
            }
            let at = at.unwrap();
            work.pop();
            list_waiters(dag, index, at, &mut work);
            proof {
                lemma_skip_one(dag, status0, missing0, ready, index@, work0, at as int, work@);
                missing0.lemma_remove_key_len(uuid);
            }
            missing.remove(&uuid);
            status.insert(uuid, ExecutionState::Skipped);
            skipped.push(uuid);
            proof {
                assert(status@.dom() =~= status0.dom());
                assert(!skipped0.contains(uuid)) by {
                    if skipped0.contains(uuid) {
                        assert(missing0.contains_key(uuid) <==> old(missing)@.contains_key(uuid)
                            && !skipped0.contains(uuid));
                    }
                }
                assert forall|e: ExecutionUuid|
                    skipped@.contains(e) <==> (e == uuid || skipped0.contains(e)) by {
                    if skipped@.contains(e) {
                        let k = choose|k: int| 0 <= k < skipped@.len() && skipped@[k] == e;
                        if k < skipped0.len() {
                            assert(skipped0[k] == e);
                        }
                    }
                    if skipped0.contains(e) {
                        let k = choose|k: int| 0 <= k < skipped0.len() && skipped0[k] == e;
                        assert(skipped@[k] == e);
                    }
                    if e == uuid {
                        assert(skipped@[skipped0.len() as int] == e);
                    }
                }
                assert(skipped@.no_duplicates()) by {
                    assert forall|a: int, b: int|
                        0 <= a < skipped@.len() && 0 <= b < skipped@.len() && a != b implies skipped@[a]
                        != skipped@[b] by {
                        if a < skipped0.len() && b < skipped0.len() {
                            assert(skipped0[a] != skipped0[b]);
                        } else if a < skipped0.len() {
                            assert(skipped0.contains(skipped0[a]));
                        } else {
                            assert(skipped0.contains(skipped0[b]));
                        }
                    }
                }
                assert forall|e: ExecutionUuid| #[trigger]
                    skipped@.contains(e) implies stands(
                    old(status)@,
                    e,
                    ExecutionState::Waiting,
                ) by {
                    if e == uuid {
                        assert(old(status)@.contains_key(e));
                        assert(!skipped0.contains(e));
                    } else {
                        assert(skipped0.contains(e));
                    }
                }
                assert forall|e: ExecutionUuid| #[trigger]
                    missing@.contains_key(e) <==> old(missing)@.contains_key(e)
                        && !skipped@.contains(e) by {
                    assert(missing0.contains_key(e) <==> old(missing)@.contains_key(e)
                        && !skipped0.contains(e));
                }
            }
        } else {
            proof {
                lemma_skip_none(dag, status0, missing0, ready, work0);
            }
            work.pop();
        }
    }
    proof {
        reveal(settling);
        reveal(settled_ok);
        assert forall|u: int, v: int|
            0 <= u < dag.execs().len() && 0 <= v < dag.execs().len() && #[trigger] dag.feeds(u, v)
                && status@[dag.execs()[u].uuid].doomed() implies status@[dag.execs()[v].uuid] is Skipped by {
            assert(!work@.contains(dag.execs()[v].uuid));
        }
    }
    skipped
}

} // verus!
