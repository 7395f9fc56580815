//! What holds of every evaluation, whatever the workers and the client
//! do.

use crate::cascade::skipped_to;
use crate::dag::{ExecutionDAGData, ExecutionUuid, FileUuid};
use crate::executor::{
    done_notes, end_notes, ends_in, lemma_ends_add, lemma_ends_one, lemma_skip_notes,
    lemma_start_notes, skip_notes, start_notes, views, ActionView, Step, WorkerConn,
};
use crate::executor::Executor;
use crate::proto::{
    ExecutorClientMessage, ExecutorServerMessage, Received, ResultView, ServerMessageView,
    WorkerClientMessage, WorkerOutput,
};
use crate::client::{announced_key, ClientStep, ExecutorClient};
use crate::store::{blake2s, concat, FileStore};
use crate::scheduler::{
    assigned, counts_ok, cover_ok, distinct_workers, queue_ok, same_fate, settled_ok, skips_ok,
    stands, woken, workers_ok, ExecutionState, ExecutorData,
};
use crate::workers::{listed, slot_of};
use vstd::prelude::*;

verus! {

/// Whether `path` lists executions of `dag`, by their places, each of
/// which needs a file of the one before it.
pub open spec fn is_chain(dag: &ExecutionDAGData, path: Seq<int>) -> bool
    decreases path.len(),
{
    &&& path.len() >= 1
    &&& 0 <= path.last() < dag.execs().len()
    &&& path.len() == 1 || (is_chain(dag, path.drop_last()) && dag.feeds(
        path[path.len() - 2],
        path.last(),
    ))
}

/// Along a chain, the numbers of a numbering along the dependencies
/// grow.
proof fn lemma_chain_climbs(dag: &ExecutionDAGData, rank: Seq<nat>, path: Seq<int>)
    requires
        dag.ranked_by(rank),
        is_chain(dag, path),
        path.len() >= 2,
    ensures
        0 <= path[0] < dag.execs().len(),
        rank[path[0]] < rank[path.last()],
    decreases path.len(),
{
    let front = path.drop_last();
    assert(is_chain(dag, front));
    assert(front.last() == path[path.len() - 2]);
    assert(front[0] == path[0]);
    if path.len() > 2 {
        lemma_chain_climbs(dag, rank, front);
    }
}

/// In a graph whose executions can be numbered along their
/// dependencies, no execution depends, directly or through others, on
/// itself.
pub proof fn no_execution_waits_for_itself(dag: &ExecutionDAGData, path: Seq<int>)
    requires
        dag.acyclic(),
        is_chain(dag, path),
        path.len() >= 2,
    ensures
        path[0] != path.last(),
{
    let rank = choose|rank: Seq<nat>| dag.ranked_by(rank);
    lemma_chain_climbs(dag, rank, path);
}

/// An execution that depends, directly or through others, on one that
/// failed or was skipped is skipped.
pub proof fn failure_skips_what_depends(state: &ExecutorData, path: Seq<int>)
    requires
        state.wf(),
        is_chain(&state.dag, path),
        path.len() >= 2,
        state.state(path[0]).doomed(),
    ensures
        state.state(path.last()) is Skipped,
    decreases path.len(),
{
    reveal(settled_ok);
    let front = path.drop_last();
    assert(is_chain(&state.dag, front));
    assert(0 <= front.last() < state.execs().len());
    if path.len() > 2 {
        assert(front[0] == path[0]);
        failure_skips_what_depends(state, front);
    }
    assert(front.last() == path[path.len() - 2]);
    assert(state.dag.feeds(path[path.len() - 2], path.last()));
}

/// An execution is skipped only where it depends, directly or through
/// others, on one that failed.
pub proof fn skipped_only_after_failure(state: &ExecutorData, v: int)
    requires
        state.wf(),
        0 <= v < state.execs().len(),
        state.state(v) is Skipped,
    ensures
        exists|path: Seq<int>|
            #[trigger] is_chain(&state.dag, path) && path.len() >= 2 && path.last() == v
                && state.state(path[0]) is Failed,
{
    let rank = choose|rank: Seq<nat>| state.dag.ranked_by(rank);
    lemma_cause(state, rank, v);
}

/// The chain of skipped executions above a skipped execution ends at
/// one that failed.
proof fn lemma_cause(state: &ExecutorData, rank: Seq<nat>, v: int)
    requires
        state.wf(),
        state.dag.ranked_by(rank),
        0 <= v < state.execs().len(),
        state.state(v) is Skipped,
    ensures
        exists|path: Seq<int>|
            #[trigger] is_chain(&state.dag, path) && path.len() >= 2 && path.last() == v
                && state.state(path[0]) is Failed,
    decreases rank[v],
{
    reveal(skips_ok);
    let u = choose|u: int|
        0 <= u < state.execs().len() && #[trigger] state.dag.feeds(u, v) && state.state(u).doomed();
    if state.state(u) is Failed {
        let path = seq![u, v];
        assert(path.drop_last() == seq![u]);
        assert(is_chain(&state.dag, seq![u]));
        assert(is_chain(&state.dag, path));
    } else {
        lemma_cause(state, rank, u);
        let above = choose|path: Seq<int>|
            #[trigger] is_chain(&state.dag, path) && path.len() >= 2 && path.last() == u
                && state.state(path[0]) is Failed;
        let path = above.push(v);
        assert(path.drop_last() == above);
        assert(is_chain(&state.dag, path));
        assert(path[0] == above[0]);
    }
}

/// Whether, from the states `before` to the states `after`, with the
/// client told `notes`, no execution that was over changed, and the
/// client was told once of each watched execution that came to its end,
/// and of no other.
pub open spec fn advances(
    watch: Seq<ExecutionUuid>,
    before: Map<ExecutionUuid, ExecutionState>,
    after: Map<ExecutionUuid, ExecutionState>,
    notes: Seq<ActionView>,
) -> bool {
    &&& after.dom() == before.dom()
    &&& forall|e: ExecutionUuid| #[trigger]
        before.contains_key(e) && before[e].terminal() ==> after[e] == before[e]
    &&& forall|e: ExecutionUuid| #[trigger]
        ends_in(notes, e) == if watch.contains(e) && before.contains_key(e)
            && !before[e].terminal() && after[e].terminal() {
            1nat
        } else {
            0nat
        }
}

/// Two advances in a row are an advance.
pub proof fn lemma_advances_twice(
    watch: Seq<ExecutionUuid>,
    first: Map<ExecutionUuid, ExecutionState>,
    second: Map<ExecutionUuid, ExecutionState>,
    third: Map<ExecutionUuid, ExecutionState>,
    notes: Seq<ActionView>,
    more: Seq<ActionView>,
)
    requires
        advances(watch, first, second, notes),
        advances(watch, second, third, more),
    ensures
        advances(watch, first, third, notes + more),
{
    assert forall|e: ExecutionUuid| #[trigger]
        ends_in(notes + more, e) == if watch.contains(e) && first.contains_key(e)
            && !first[e].terminal() && third[e].terminal() {
            1nat
        } else {
            0nat
        } by {
        lemma_ends_add(notes, more, e);
        assert(ends_in(notes, e) == if watch.contains(e) && first.contains_key(e)
            && !first[e].terminal() && second[e].terminal() {
            1nat
        } else {
            0nat
        });
        assert(ends_in(more, e) == if watch.contains(e) && second.contains_key(e)
            && !second[e].terminal() && third[e].terminal() {
            1nat
        } else {
            0nat
        });
        assert(second.contains_key(e) <==> first.contains_key(e));
    }
    assert forall|e: ExecutionUuid| #[trigger]
        first.contains_key(e) && first[e].terminal() implies third[e] == first[e] by {
        assert(second.contains_key(e));
    }
}

/// Where the executions that are over stay the same and the client is
/// told of no end, the state advances.
pub proof fn lemma_quiet_advance(
    watch: Seq<ExecutionUuid>,
    before: Map<ExecutionUuid, ExecutionState>,
    after: Map<ExecutionUuid, ExecutionState>,
    notes: Seq<ActionView>,
)
    requires
        same_fate(before, after),
        forall|e: ExecutionUuid| ends_in(notes, e) == 0,
    ensures
        advances(watch, before, after, notes),
{
}

/// Bringing the state to rest is an advance.
pub proof fn lemma_settle_advances(
    before: &ExecutorData,
    now: u64,
    after: &ExecutorData,
    assignments: Seq<crate::schedule::Assignment>,
    notes: Seq<ActionView>,
)
    requires
        before.settled_to(now, after, assignments, notes),
    ensures
        advances(before.callbacks.executions@, before.status@, after.status@, notes),
{
    let watch = before.callbacks.executions@;
    let starts = start_notes(watch, assignments);
    let done = done_notes(before.evaluating && after.complete(), before.outcomes@);
    assert forall|e: ExecutionUuid| ends_in(notes, e) == 0 by {
        lemma_start_notes(watch, assignments, e);
        lemma_ends_add(starts, done, e);
        lemma_ends_one(ActionView::Tell(ServerMessageView::Done(before.outcomes@)), e);
    }
    lemma_quiet_advance(watch, before.status@, after.status@, notes);
}

/// Executions that can start as files come keep what is over.
pub proof fn lemma_woken_fate(
    dag: &ExecutionDAGData,
    before: Map<ExecutionUuid, ExecutionState>,
    ready: Set<FileUuid>,
    after: Map<ExecutionUuid, ExecutionState>,
)
    requires
        dag.wf(),
        cover_ok(dag, before),
        woken(dag, before, ready, after),
    ensures
        same_fate(before, after),
{
    reveal(cover_ok);
    assert forall|e: ExecutionUuid| #[trigger]
        before.contains_key(e) && (before[e].terminal() || after[e].terminal()) implies after[e]
        == before[e] by {
        assert(dag.has_execution(e));
        let i = choose|i: int| 0 <= i < dag.execs().len() && (#[trigger] dag.execs()[i]).uuid == e;
        assert(after[dag.execs()[i].uuid] == if before[dag.execs()[i].uuid] is Waiting
            && crate::scheduler::unready(dag.execs()[i].needs(), ready) == 0 {
            ExecutionState::Ready
        } else {
            before[dag.execs()[i].uuid]
        });
    }
}

/// Where nothing is left to do, every execution of the graph is over.
pub proof fn lemma_complete_is_over(state: &ExecutorData, e: ExecutionUuid)
    requires
        state.wf(),
        state.complete(),
        state.status@.contains_key(e),
    ensures
        state.status@[e].terminal(),
{
    reveal(counts_ok);
    reveal(queue_ok);
    reveal(workers_ok);
    assert(state.missing_deps@.contains_key(e) <==> stands(
        state.status@,
        e,
        ExecutionState::Waiting,
    ));
    if state.missing_deps@.contains_key(e) {
        assert(state.missing_deps@.dom().contains(e));
        state.missing_deps@.dom().lemma_len0_is_empty();
    }
    assert(crate::queue::queued(state.ready_execs@, e) <==> stands(
        state.status@,
        e,
        ExecutionState::Ready,
    ));
    assert(assigned(state.waiting_workers@, e) <==> stands(
        state.status@,
        e,
        ExecutionState::Running,
    ));
    if assigned(state.waiting_workers@, e) {
        let k = choose|k: int|
            0 <= k < state.waiting_workers@.len() && (#[trigger] state.waiting_workers@[k]).job
                == Some(e);
        assert(state.waiting_workers@[k].job is None);
    }
}

/// The end of a job is an advance: the client is told once of the
/// execution that ended and of each that was skipped, where it watches
/// them.
pub proof fn lemma_finish_advances(
    before: &ExecutorData,
    worker: crate::dag::WorkerUuid,
    result: ResultView,
    outputs: Seq<WorkerOutput>,
    now: u64,
    after: &ExecutorData,
    step: Step,
)
    requires
        before.wf(),
        before.finished_to(worker, result, outputs, now, after, step),
    ensures
        advances(before.callbacks.executions@, before.status@, after.status@, views(step.actions@)),
{
    let watch = before.callbacks.executions@;
    let notes = views(step.actions@);
    if listed(before.waiting_workers@, worker) && before.waiting_workers@[slot_of(
        before.waiting_workers@,
        worker,
    )].job is Some {
        let (recorded, ended) = choose|recorded: ExecutorData, ended: ExecutorData| #[trigger]
            before.finished_through(
                worker,
                result,
                outputs,
                now,
                &recorded,
                &ended,
                after,
                step,
            );
        let k = slot_of(before.waiting_workers@, worker);
        let job = before.waiting_workers@[k].job.unwrap();
        let made = before.execs()[crate::scheduler::place_of(before.execs(), job)].makes();
        let complete = crate::executor::all_reported(made, outputs);
        let ok = result.status is Success && complete;
        let ends = end_notes(watch, job, crate::executor::verdict(result, complete));
        let skips = skip_notes(watch, step.skipped@);
        let told = ends + skips;
        let rest = notes.skip(told.len() as int);
        assert(notes == told + rest) by {
            assert(notes.take(told.len() as int) + notes.skip(told.len() as int) == notes);
        }
        assert(assigned(before.waiting_workers@, job));
        assert(stands(before.status@, job, ExecutionState::Running)) by {
            reveal(workers_ok);
        }
        assert(recorded.status == before.status);
        assert(recorded.callbacks == before.callbacks);
        assert(ended.callbacks == before.callbacks);
        assert forall|e: ExecutionUuid| ends_in(ends, e) == if watch.contains(job) && e == job {
            1nat
        } else {
            0nat
        } by {
            lemma_ends_one(
                ActionView::Tell(
                    ServerMessageView::NotifyDone(job, crate::executor::verdict(result, complete)),
                ),
                e,
            );
        }
        if ok {
            let mid = before.status@.insert(job, ExecutionState::Succeeded);
            assert(woken(&before.dag, mid, ended.ready_files(), ended.status@));
            assert(cover_ok(&before.dag, mid)) by {
                reveal(cover_ok);
                assert(mid.dom() =~= before.status@.dom());
            }
            lemma_woken_fate(&before.dag, mid, ended.ready_files(), ended.status@);
            assert(skips == Seq::<ActionView>::empty());
            assert(told == ends);
            assert(advances(watch, before.status@, ended.status@, told)) by {
                assert(mid.dom() =~= before.status@.dom());
                assert forall|e: ExecutionUuid| #[trigger]
                    before.status@.contains_key(e) && before.status@[e].terminal() implies ended.status@[e]
                    == before.status@[e] by {
                    assert(mid.contains_key(e));
                }
                assert forall|e: ExecutionUuid| #[trigger]
                    ends_in(told, e) == if watch.contains(e) && before.status@.contains_key(e)
                        && !before.status@[e].terminal() && ended.status@[e].terminal() {
                        1nat
                    } else {
                        0nat
                    } by {
                    if before.status@.contains_key(e) {
                        assert(mid.contains_key(e));
                    }
                }
            }
        } else {
            let mid = before.status@.insert(job, ExecutionState::Failed);
            assert(skipped_to(
                mid,
                recorded.missing_deps@,
                step.skipped@,
                ended.status@,
                ended.missing_deps@,
            ));
            assert(advances(watch, before.status@, ended.status@, told)) by {
                assert(mid.dom() =~= before.status@.dom());
                assert forall|e: ExecutionUuid| #[trigger]
                    before.status@.contains_key(e) && before.status@[e].terminal() implies ended.status@[e]
                    == before.status@[e] by {
                    assert(mid.contains_key(e));
                    if step.skipped@.contains(e) {
                        assert(stands(mid, e, ExecutionState::Waiting));
                    }
                }
                assert forall|e: ExecutionUuid| #[trigger]
                    ends_in(told, e) == if watch.contains(e) && before.status@.contains_key(e)
                        && !before.status@[e].terminal() && ended.status@[e].terminal() {
                        1nat
                    } else {
                        0nat
                    } by {
                    lemma_ends_add(ends, skips, e);
                    lemma_skip_notes(watch, step.skipped@, e);
                    if step.skipped@.contains(e) {
                        assert(stands(mid, e, ExecutionState::Waiting));
                        assert(e != job);
                    }
                    if before.status@.contains_key(e) {
                        assert(mid.contains_key(e));
                    }
                }
            }
        }
        lemma_settle_advances(&ended, now, after, step.assignments@, rest);
        lemma_advances_twice(watch, before.status@, ended.status@, after.status@, told, rest);
    } else {
        assert(notes == Seq::<ActionView>::empty());
        lemma_ends_zero();
    }
}

/// Of an empty list of actions, none tells an end.
pub proof fn lemma_ends_zero()
    ensures
        forall|e: ExecutionUuid| ends_in(Seq::<ActionView>::empty(), e) == 0,
{
}

/// What a worker makes the executor do is an advance, unless it ends
/// the evaluation by sending bytes that are no message.
pub proof fn worker_step_advances(
    before: &ExecutorData,
    conn: &WorkerConn,
    received: Received<WorkerClientMessage>,
    now: u64,
    after: &ExecutorData,
    step: Step,
)
    requires
        before.wf(),
        before.worker_step(conn, received, now, after, step),
        !(received is Garbled),
    ensures
        advances(before.callbacks.executions@, before.status@, after.status@, views(step.actions@)),
        after.dag == before.dag,
        after.callbacks == before.callbacks,
{
    let watch = before.callbacks.executions@;
    let notes = views(step.actions@);
    match received {
        Received::Message(WorkerClientMessage::GetWork) => {
            let (joined, added) = choose|joined: ExecutorData, added: bool| #[trigger]
                before.joined_to(conn.uuid, conn.name@, now, &joined, added) && joined.wf()
                    && joined.settled_to(now, after, step.assignments@, views(step.actions@))
                    && step.flow == crate::executor::Flow::GoOn && step.skipped@.len() == 0;
            lemma_settle_advances(&joined, now, after, step.assignments@, notes);
        },
        Received::Message(WorkerClientMessage::WorkerDone(result, outputs)) => {
            lemma_finish_advances(before, conn.uuid, result@, outputs@, now, after, step);
            if listed(before.waiting_workers@, conn.uuid) && before.waiting_workers@[slot_of(
                before.waiting_workers@,
                conn.uuid,
            )].job is Some {
                let (recorded, ended) = choose|recorded: ExecutorData, ended: ExecutorData| #[trigger]
                    before.finished_through(
                        conn.uuid,
                        result@,
                        outputs@,
                        now,
                        &recorded,
                        &ended,
                        after,
                        step,
                    );
            }
        },
        Received::Closed => {
            let (left, removed) = choose|left: ExecutorData, removed: bool| #[trigger]
                before.left_to(conn.uuid, &left, removed) && left.wf() && left.settled_to(
                    now,
                    after,
                    step.assignments@,
                    views(step.actions@),
                ) && step.flow == crate::executor::Flow::Stop && step.skipped@.len() == 0;
            lemma_settle_advances(&left, now, after, step.assignments@, notes);
            lemma_ends_zero();
            assert(advances(watch, before.status@, left.status@, Seq::<ActionView>::empty())) by {
                if removed {
                    let k = slot_of(before.waiting_workers@, conn.uuid);
                    match before.waiting_workers@[k].job {
                        Some(job) => {
                            assert(assigned(before.waiting_workers@, job));
                            assert(stands(before.status@, job, ExecutionState::Running)) by {
                                reveal(workers_ok);
                            }
                            assert(left.status@.dom() =~= before.status@.dom());
                        },
                        None => {},
                    }
                }
            }
            lemma_advances_twice(
                watch,
                before.status@,
                left.status@,
                after.status@,
                Seq::<ActionView>::empty(),
                notes,
            );
            assert(Seq::<ActionView>::empty() + notes == notes);
        },
        Received::Garbled => {},
    }
}

/// Whether `states` and `notes` tell of an evaluation: the client is
/// told `notes[i]` as the state goes from `states[i]` to the next, and
/// each time the state advances.
pub open spec fn is_run(
    watch: Seq<ExecutionUuid>,
    states: Seq<Map<ExecutionUuid, ExecutionState>>,
    notes: Seq<Seq<ActionView>>,
) -> bool {
    &&& states.len() == notes.len() + 1
    &&& forall|i: int|
        0 <= i < notes.len() ==> advances(watch, #[trigger] states[i], states[i + 1], notes[i])
}

/// All that the client is told in `notes`, in order.
pub open spec fn all_told(notes: Seq<Seq<ActionView>>) -> Seq<ActionView>
    decreases notes.len(),
{
    if notes.len() == 0 {
        Seq::empty()
    } else {
        all_told(notes.drop_last()) + notes.last()
    }
}

/// An evaluation is an advance from its first state to its last.
pub proof fn lemma_run_advances(
    watch: Seq<ExecutionUuid>,
    states: Seq<Map<ExecutionUuid, ExecutionState>>,
    notes: Seq<Seq<ActionView>>,
)
    requires
        is_run(watch, states, notes),
    ensures
        advances(watch, states[0], states.last(), all_told(notes)),
    decreases notes.len(),
{
    if notes.len() == 0 {
        lemma_ends_zero();
    } else {
        let fewer = states.drop_last();
        let told = notes.drop_last();
        assert(is_run(watch, fewer, told)) by {
            assert forall|i: int| 0 <= i < told.len() implies advances(
                watch,
                #[trigger] fewer[i],
                fewer[i + 1],
                told[i],
            ) by {
                assert(advances(watch, states[i], states[i + 1], notes[i]));
            }
        }
        lemma_run_advances(watch, fewer, told);
        let n = notes.len() - 1;
        assert(advances(watch, states[n], states[n + 1], notes[n]));
        assert(fewer.last() == states[n]);
        assert(fewer[0] == states[0]);
        lemma_advances_twice(
            watch,
            states[0],
            states[n],
            states.last(),
            all_told(told),
            notes.last(),
        );
    }
}

/// In an evaluation that starts with no execution over, the client is
/// told at most once that a given execution ended or will not run; it
/// is told of no execution that it does not watch; and it is told once
/// of each watched execution that is over in the end.
pub proof fn each_execution_ends_once(
    watch: Seq<ExecutionUuid>,
    states: Seq<Map<ExecutionUuid, ExecutionState>>,
    notes: Seq<Seq<ActionView>>,
    execution: ExecutionUuid,
)
    requires
        is_run(watch, states, notes),
        forall|e: ExecutionUuid| states[0].contains_key(e) ==> !(#[trigger] states[0][e]).terminal(),
    ensures
        ends_in(all_told(notes), execution) <= 1,
        !watch.contains(execution) ==> ends_in(all_told(notes), execution) == 0,
        ends_in(all_told(notes), execution) == 1 <==> watch.contains(execution)
            && states.last().contains_key(execution) && states.last()[execution].terminal(),
{
    lemma_run_advances(watch, states, notes);
    assert(ends_in(all_told(notes), execution) == if watch.contains(execution)
        && states[0].contains_key(execution) && !states[0][execution].terminal()
        && states.last()[execution].terminal() {
        1nat
    } else {
        0nat
    });
    assert(states.last().contains_key(execution) <==> states[0].contains_key(execution));
}

/// When an evaluation that started with no execution over has nothing
/// left to do, the client was told once of each execution that it
/// watches.
pub proof fn every_watched_execution_ends(
    last: &ExecutorData,
    states: Seq<Map<ExecutionUuid, ExecutionState>>,
    notes: Seq<Seq<ActionView>>,
    execution: ExecutionUuid,
)
    requires
        last.wf(),
        last.complete(),
        states.last() == last.status@,
        is_run(last.callbacks.executions@, states, notes),
        forall|e: ExecutionUuid| states[0].contains_key(e) ==> !(#[trigger] states[0][e]).terminal(),
        last.callbacks.executions@.contains(execution),
    ensures
        ends_in(all_told(notes), execution) == 1,
{
    each_execution_ends_once(last.callbacks.executions@, states, notes, execution);
    let k = choose|k: int|
        0 <= k < last.callbacks.executions@.len() && last.callbacks.executions@[k] == execution;
    assert(last.dag.has_execution(last.callbacks.executions@[k]));
    assert(last.status@.contains_key(execution)) by {
        reveal(cover_ok);
    }
    lemma_complete_is_over(last, execution);
}

/// The executions that are handed to workers were not over, and are not.
proof fn lemma_started_unfinished(
    status: Map<ExecutionUuid, ExecutionState>,
    assignments: Seq<crate::schedule::Assignment>,
)
    requires
        forall|e: ExecutionUuid| status.contains_key(e) ==> !(#[trigger] status[e]).terminal(),
    ensures
        forall|e: ExecutionUuid|
            crate::schedule::started(status, assignments).contains_key(e) ==> !(
            #[trigger] crate::schedule::started(status, assignments)[e]).terminal(),
    decreases assignments.len(),
{
    if assignments.len() > 0 {
        lemma_started_unfinished(status, assignments.drop_last());
        let before = crate::schedule::started(status, assignments.drop_last());
        let after = crate::schedule::started(status, assignments);
        assert(after == before.insert(assignments.last().execution, ExecutionState::Running));
        assert forall|e: ExecutionUuid| after.contains_key(e) implies !(#[trigger] after[e]).terminal() by {
            if e != assignments.last().execution {
                assert(before.contains_key(e));
                assert(!before[e].terminal());
            }
        }
    }
}

/// When the evaluation of a graph starts, no execution is over.
pub proof fn evaluation_starts_unfinished(
    before: &Executor,
    received: Received<ExecutorClientMessage>,
    stream: Seq<Vec<u8>>,
    now: u64,
    after: &Executor,
    step: Step,
    execution: ExecutionUuid,
)
    requires
        before.client_step(received, stream, now, after, step),
        received matches Received::Message(ExecutorClientMessage::Evaluate { dag, callbacks })
            && dag.valid() && dag.knows(&callbacks),
        after.data.status@.contains_key(execution),
    ensures
        !after.data.status@[execution].terminal(),
        received matches Received::Message(ExecutorClientMessage::Evaluate { dag, callbacks })
            && after.data.dag == dag && after.data.callbacks == callbacks,
{
    match received {
        Received::Message(ExecutorClientMessage::Evaluate { dag, callbacks }) => {
            let asked = crate::executor::ask_notes(
                dag.provided(),
                &before.store,
                dag.provided().len(),
            );
            let seeded = choose|seeded: ExecutorData| #[trigger]
                before.data.seeded_to(&dag, &callbacks, &before.store, &seeded) && seeded.wf()
                    && seeded.settled_to(
                    now,
                    &after.data,
                    step.assignments@,
                    views(step.actions@).skip(asked.len() as int),
                );
            assert forall|e: ExecutionUuid| seeded.status@.contains_key(e) implies !(
            #[trigger] seeded.status@[e]).terminal() by {
                reveal(cover_ok);
                assert(seeded.dag.has_execution(e));
                let i = choose|i: int|
                    0 <= i < seeded.dag.execs().len() && (#[trigger] seeded.dag.execs()[i]).uuid
                        == e;
                assert(seeded.status@[dag.execs()[i].uuid] is Ready
                    || seeded.status@[dag.execs()[i].uuid] is Waiting);
            }
            lemma_started_unfinished(seeded.status@, step.assignments@);
        },
        _ => {},
    }
}

/// What the client makes the executor do during an evaluation is an
/// advance: when it sends a file whose content has the announced key,
/// asks for a file that the store holds, or asks for the status.
pub proof fn client_step_advances(
    before: &Executor,
    received: Received<ExecutorClientMessage>,
    stream: Seq<Vec<u8>>,
    now: u64,
    after: &Executor,
    step: Step,
)
    requires
        before.data.wf(),
        before.client_step(received, stream, now, after, step),
        match received {
            Received::Message(ExecutorClientMessage::ProvideFile(_, key)) => blake2s(
                concat(stream),
            ) == key,
            Received::Message(ExecutorClientMessage::AskFile(_, key, _)) => before.store.holds(key),
            Received::Message(ExecutorClientMessage::Status) => true,
            _ => false,
        },
    ensures
        advances(
            before.data.callbacks.executions@,
            before.data.status@,
            after.data.status@,
            views(step.actions@),
        ),
        after.data.dag == before.data.dag,
        after.data.callbacks == before.data.callbacks,
{
    let watch = before.data.callbacks.executions@;
    let notes = views(step.actions@);
    match received {
        Received::Message(ExecutorClientMessage::ProvideFile(file, key)) => {
            let (supplied, taken) = choose|supplied: ExecutorData, taken: bool| #[trigger]
                before.data.supplied_to(file, key, &supplied, taken) && supplied.wf()
                    && supplied.settled_to(
                    now,
                    &after.data,
                    step.assignments@,
                    views(step.actions@),
                );
            lemma_settle_advances(&supplied, now, &after.data, step.assignments@, notes);
            lemma_ends_zero();
            if taken {
                lemma_woken_fate(
                    &before.data.dag,
                    before.data.status@,
                    supplied.ready_files(),
                    supplied.status@,
                );
            }
            lemma_quiet_advance(
                watch,
                before.data.status@,
                supplied.status@,
                Seq::<ActionView>::empty(),
            );
            lemma_advances_twice(
                watch,
                before.data.status@,
                supplied.status@,
                after.data.status@,
                Seq::<ActionView>::empty(),
                notes,
            );
            assert(Seq::<ActionView>::empty() + notes == notes);
        },
        Received::Message(ExecutorClientMessage::AskFile(file, key, success)) => {
            assert forall|e: ExecutionUuid| ends_in(notes, e) == 0 by {
                let first = seq![ActionView::Tell(ServerMessageView::ProvideFile(file, success))];
                let second = seq![ActionView::Stream(key)];
                assert(notes == first + second);
                lemma_ends_add(first, second, e);
                lemma_ends_one(ActionView::Tell(ServerMessageView::ProvideFile(file, success)), e);
                lemma_ends_one(ActionView::Stream(key), e);
            }
            lemma_quiet_advance(watch, before.data.status@, after.data.status@, notes);
        },
        Received::Message(ExecutorClientMessage::Status) => {
            assert forall|e: ExecutionUuid| ends_in(notes, e) == 0 by {
                lemma_ends_one(
                    ActionView::Tell(ServerMessageView::Status(before.data.snapshot(now))),
                    e,
                );
            }
            lemma_quiet_advance(watch, before.data.status@, after.data.status@, notes);
        },
        _ => {},
    }
}

/// Where a worker ends a job that the client watches, the first thing
/// that the client is told is that the execution ended: with the result
/// as the worker gave it, unless the worker said that the execution
/// returned zero and did not send every file of it. In what the client
/// is told the execution ends once, so it is not skipped; and the
/// worker is no longer listed.
pub proof fn end_is_told_as_it_came(
    before: &ExecutorData,
    worker: crate::dag::WorkerUuid,
    result: ResultView,
    outputs: Seq<WorkerOutput>,
    now: u64,
    after: &ExecutorData,
    step: Step,
)
    requires
        before.wf(),
        before.finished_to(worker, result, outputs, now, after, step),
        listed(before.waiting_workers@, worker),
        before.waiting_workers@[slot_of(before.waiting_workers@, worker)].job is Some,
        before.callbacks.executions@.contains(
            before.waiting_workers@[slot_of(before.waiting_workers@, worker)].job.unwrap(),
        ),
    ensures
        ({
            let job = before.waiting_workers@[slot_of(before.waiting_workers@, worker)].job.unwrap();
            let made = before.execs()[crate::scheduler::place_of(before.execs(), job)].makes();
            let complete = crate::executor::all_reported(made, outputs);
            &&& views(step.actions@).len() > 0
            &&& views(step.actions@)[0] == ActionView::Tell(
                ServerMessageView::NotifyDone(job, crate::executor::verdict(result, complete)),
            )
            &&& !(result.status is Success) || complete ==> crate::executor::verdict(
                result,
                complete,
            ) == result
            &&& ends_in(views(step.actions@), job) == 1
            &&& after.status@.contains_key(job) && after.status@[job].terminal()
            &&& !listed(after.waiting_workers@, worker)
        }),
{
    let watch = before.callbacks.executions@;
    let notes = views(step.actions@);
    let (recorded, ended) = choose|recorded: ExecutorData, ended: ExecutorData| #[trigger]
        before.finished_through(worker, result, outputs, now, &recorded, &ended, after, step);
    let k = slot_of(before.waiting_workers@, worker);
    let job = before.waiting_workers@[k].job.unwrap();
    let made = before.execs()[crate::scheduler::place_of(before.execs(), job)].makes();
    let complete = crate::executor::all_reported(made, outputs);
    let ok = result.status is Success && complete;
    let ends = end_notes(watch, job, crate::executor::verdict(result, complete));
    let told = ends + skip_notes(watch, step.skipped@);
    assert(notes[0] == notes.take(told.len() as int)[0]);
    assert(told[0] == ends[0]);
    lemma_finish_advances(before, worker, result, outputs, now, after, step);
    assert(assigned(before.waiting_workers@, job));
    assert(stands(before.status@, job, ExecutionState::Running) && distinct_workers(
        before.waiting_workers@,
    ) && crate::scheduler::distinct_jobs(before.waiting_workers@)) by {
        reveal(workers_ok);
    }
    assert(before.dag.has_execution(job)) by {
        reveal(cover_ok);
    }
    let at = choose|i: int| 0 <= i < before.execs().len() && (#[trigger] before.execs()[i]).uuid == job;
    assert(recorded.status == before.status);
    assert(recorded.waiting_workers == before.waiting_workers);
    // The execution is over once the end of the job is taken.
    if ok {
        let mid = before.status@.insert(job, ExecutionState::Succeeded);
        assert(woken(&before.dag, mid, ended.ready_files(), ended.status@));
        assert(ended.status@[before.execs()[at].uuid] == mid[job]);
    } else {
        let mid = before.status@.insert(job, ExecutionState::Failed);
        assert(mid.contains_key(job));
    }
    assert(ended.status@.contains_key(job) && ended.status@[job].terminal());
    assert(same_fate(ended.status@, after.status@));
    // The worker left the list, and handing out work brings none back.
    let slot = crate::finish::job_slot(before.waiting_workers@, job);
    assert(before.waiting_workers@[slot].job == Some(job));
    assert(slot == k) by {
        if slot < k {
            assert(before.waiting_workers@[slot].job != before.waiting_workers@[k].job);
        }
        if k < slot {
            assert(before.waiting_workers@[k].job != before.waiting_workers@[slot].job);
        }
    }
    let left = ended.waiting_workers@;
    assert(left == before.waiting_workers@.remove(k));
    crate::schedule::lemma_assign_keeps_workers(ended.ready_execs@, left, now);
    assert(!listed(after.waiting_workers@, worker)) by {
        if listed(after.waiting_workers@, worker) {
            let i = choose|i: int|
                0 <= i < after.waiting_workers@.len() && (#[trigger] after.waiting_workers@[i]).worker
                    == worker;
            assert(left[i].worker == worker);
            if i < k {
                assert(before.waiting_workers@[i].worker == worker);
            } else {
                assert(before.waiting_workers@[i + 1].worker == worker);
            }
        }
    }
}

/// The key under which the executor records a file that the client
/// sent is the digest of the bytes that came.
pub proof fn provided_key_is_digest(
    before: &Executor,
    file: FileUuid,
    key: crate::dag::FileKey,
    stream: Seq<Vec<u8>>,
    now: u64,
    after: &Executor,
    step: Step,
)
    requires
        before.provided_to(file, key, stream, now, after, step),
        !before.data.file_keys@.contains_key(file),
        after.data.file_keys@.contains_key(file),
    ensures
        after.data.file_keys@[file] == blake2s(concat(stream)),
        after.store.holds(after.data.file_keys@[file]),
        blake2s(after.store.content(after.data.file_keys@[file])) == after.data.file_keys@[file],
{
    if blake2s(concat(stream)) == key {
        let (supplied, taken) = choose|supplied: ExecutorData, taken: bool| #[trigger]
            before.data.supplied_to(file, key, &supplied, taken) && supplied.wf()
                && supplied.settled_to(now, &after.data, step.assignments@, views(step.actions@));
    }
}

/// A content that the executor sends for a file that it listed is
/// handed on by the client only where its digest is the key with which
/// the file was listed; and the list stays as it was.
pub proof fn delivered_stream_has_listed_key(
    before: &ExecutorClient,
    file: FileUuid,
    success: bool,
    stream: Seq<Vec<u8>>,
    held: &FileStore,
    after: &ExecutorClient,
    step: ClientStep,
)
    requires
        before.server_step(
            Received::Message(ExecutorServerMessage::ProvideFile(file, success)),
            stream,
            held,
            after,
            step,
        ),
        announced_key(before.announced@, file) is Some,
        step.actions@.len() > 0,
        step.actions@[0] is Deliver,
    ensures
        blake2s(concat(stream)) == announced_key(before.announced@, file).unwrap(),
        after.announced@ == before.announced@,
{
}

/// A part of a chain is a chain.
pub proof fn lemma_subchain(dag: &ExecutionDAGData, path: Seq<int>, from: int, to: int)
    requires
        is_chain(dag, path),
        0 <= from < to <= path.len(),
    ensures
        is_chain(dag, path.subrange(from, to)),
    decreases path.len(),
{
    let part = path.subrange(from, to);
    if to < path.len() {
        lemma_subchain(dag, path.drop_last(), from, to);
        assert(part == path.drop_last().subrange(from, to));
    } else if to - from == 1 {
        assert(part.last() == path.last());
    } else {
        lemma_subchain(dag, path.drop_last(), from, to - 1);
        assert(part.drop_last() == path.drop_last().subrange(from, to - 1));
        assert(part.last() == path.last());
        assert(part[part.len() - 2] == path[path.len() - 2]);
    }
}

/// Whether some execution of `dag` depends, directly or through
/// others, on itself.
pub open spec fn has_cycle(dag: &ExecutionDAGData) -> bool {
    exists|path: Seq<int>| #[trigger] is_chain(dag, path) && path.len() >= 2 && path[0] == path.last()
}

/// Where no execution depends on itself, a chain names no execution
/// twice, and is no longer than the graph.
proof fn lemma_chain_is_short(dag: &ExecutionDAGData, path: Seq<int>)
    requires
        !has_cycle(dag),
        is_chain(dag, path),
    ensures
        path.no_duplicates(),
        path.len() <= dag.execs().len(),
{
    assert forall|a: int, b: int| 0 <= a < path.len() && 0 <= b < path.len() && a != b implies path[a]
        != path[b] by {
        let (lo, hi) = if a < b {
            (a, b)
        } else {
            (b, a)
        };
        if path[lo] == path[hi] {
            lemma_subchain(dag, path, lo, hi + 1);
            let part = path.subrange(lo, hi + 1);
            assert(part[0] == path[lo]);
            assert(part.last() == path[hi]);
            assert(is_chain(dag, part) && part.len() >= 2 && part[0] == part.last());
        }
    }
    path.unique_seq_to_set();
    let all = vstd::set_lib::set_int_range(0, dag.execs().len() as int);
    vstd::set_lib::lemma_int_range(0, dag.execs().len() as int);
    assert(path.to_set().subset_of(all)) by {
        assert forall|x: int| path.to_set().contains(x) implies all.contains(x) by {
            let k = choose|k: int| 0 <= k < path.len() && path[k] == x;
            lemma_subchain(dag, path, k, k + 1);
            assert(path.subrange(k, k + 1).last() == path[k]);
        }
    }
    vstd::set_lib::lemma_len_subset(path.to_set(), all);
}

/// Whether a chain of `length` executions ends at the `v`-th execution.
pub open spec fn reached_by(dag: &ExecutionDAGData, v: int, length: nat) -> bool {
    exists|path: Seq<int>| #[trigger] is_chain(dag, path) && path.len() == length && path.last() == v
}

/// The length of the longest chain of at most `bound` executions that
/// ends at the `v`-th execution; zero where there is none.
pub open spec fn height(dag: &ExecutionDAGData, v: int, bound: nat) -> nat
    decreases bound,
{
    if bound == 0 {
        0
    } else if reached_by(dag, v, bound) {
        bound
    } else {
        height(dag, v, (bound - 1) as nat)
    }
}

/// The height is the length of a chain, and no chain within the bound
/// is longer.
proof fn lemma_height(dag: &ExecutionDAGData, v: int, bound: nat, length: nat)
    ensures
        height(dag, v, bound) <= bound,
        height(dag, v, bound) > 0 ==> reached_by(dag, v, height(dag, v, bound)),
        0 < length <= bound && reached_by(dag, v, length) ==> length <= height(dag, v, bound),
    decreases bound,
{
    if bound > 0 && !reached_by(dag, v, bound) {
        lemma_height(dag, v, (bound - 1) as nat, length);
    }
}

/// The executions of a graph can be numbered along their dependencies,
/// or one of them depends, directly or through others, on itself.
pub proof fn numbering_or_cycle(dag: &ExecutionDAGData)
    ensures
        dag.acyclic() || has_cycle(dag),
{
    if !has_cycle(dag) {
        let n = dag.execs().len();
        let rank = Seq::new(n, |v: int| height(dag, v, n));
        assert forall|u: int, v: int| 0 <= u < n && 0 <= v < n && #[trigger] dag.feeds(u, v) implies rank[u]
            < rank[v] by {
            let alone = seq![u];
            assert(is_chain(dag, alone));
            assert(reached_by(dag, u, 1));
            lemma_height(dag, u, n, 1);
            let h = height(dag, u, n);
            let path = choose|path: Seq<int>|
                #[trigger] is_chain(dag, path) && path.len() == h && path.last() == u;
            let longer = path.push(v);
            assert(longer.drop_last() == path);
            assert(longer[longer.len() - 2] == u);
            assert(is_chain(dag, longer));
            lemma_chain_is_short(dag, longer);
            assert(reached_by(dag, v, h + 1));
            lemma_height(dag, v, n, h + 1);
        }
        assert(dag.ranked_by(rank));
    }
}

/// The executions of a graph can be numbered along their dependencies
/// if, and only if, none of them depends, directly or through others,
/// on itself.
pub proof fn acyclic_means_no_cycle(dag: &ExecutionDAGData)
    ensures
        dag.acyclic() <==> !has_cycle(dag),
{
    numbering_or_cycle(dag);
    if dag.acyclic() && has_cycle(dag) {
        let path = choose|path: Seq<int>|
            #[trigger] is_chain(dag, path) && path.len() >= 2 && path[0] == path.last();
        no_execution_waits_for_itself(dag, path);
    }
}

} // verus!
