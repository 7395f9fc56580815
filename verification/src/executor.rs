//! The executor: what it does on each message of the client and of the
//! workers.

use crate::check_dag::{check_dag, contains_uuid, DagError};
use crate::dag::{
    ExecutionDAGData, ExecutionDAGWatchSet, ExecutionUuid, FileKey, FileUuid, ProvidedFile,
    WorkerUuid,
};
use crate::proto::{
    ExecutionResult, ExecutionStatus, ExecutorClientMessage, ExecutorServerMessage,
    ExecutorStatus, ExecutorWorkerStatus, FileDependency, FileOutcome, Received, ResultView,
    ServerMessageView, SnapshotView, StatusView, Work, WorkerClientMessage, WorkerOutput,
    WorkerStatusView,
};
use crate::scheduler::{cover_ok, place_of, workers_ok};
use crate::workers::{find_worker, lemma_slot_of, listed, slot_of};
use vstd::string::StringExecFns;
use crate::schedule::{assign_all, started, Assignment};
use crate::scheduler::{ExecutionState, ExecutorData};
use crate::store::{assemble, blake2s, concat, FileStore};
use std::collections::HashMap;
use vstd::prelude::*;

verus! {

/// Something that the executor wants done.
#[derive(Debug)]
pub enum ExecutorAction {
    /// Send a message to the client.
    Tell(ExecutorServerMessage),
    /// Send the content under a key to the client, then the mark that
    /// ends a stream.
    Stream(FileKey),
    /// Wake a worker: its job is there.
    Wake(WorkerUuid),
}

/// An action, with its texts and lists as sequences.
pub enum ActionView {
    /// Send a message to the client.
    Tell(ServerMessageView),
    /// Send the content under a key to the client.
    Stream(FileKey),
    /// Wake a worker.
    Wake(WorkerUuid),
}

impl View for ExecutorAction {
    type V = ActionView;

    open spec fn view(&self) -> ActionView {
        match self {
            ExecutorAction::Tell(message) => ActionView::Tell(message@),
            ExecutorAction::Stream(key) => ActionView::Stream(*key),
            ExecutorAction::Wake(worker) => ActionView::Wake(*worker),
        }
    }
}

/// The actions of `actions`, each by its view.
pub open spec fn views(actions: Seq<ExecutorAction>) -> Seq<ActionView> {
    Seq::new(actions.len(), |i: int| actions[i]@)
}

/// Whether the loop that reads a channel goes on.
#[derive(Clone, Copy, Debug, PartialEq, Eq, Structural)]
pub enum Flow {
    /// Read the next message.
    GoOn,
    /// Leave the loop.
    Stop,
}

/// What the executor did on a message.
#[derive(Debug)]
pub struct Step {
    /// What is to be done, in order.
    pub actions: Vec<ExecutorAction>,
    /// Whether the loop goes on.
    pub flow: Flow,
    /// The executions that were skipped, in the order in which they were.
    pub skipped: Vec<ExecutionUuid>,
    /// The executions that were handed to workers, in the order in which
    /// they were.
    pub assignments: Vec<Assignment>,
}

/// Whether the action tells the client that `execution` ended or will
/// not run.
pub open spec fn tells_end(action: ActionView, execution: ExecutionUuid) -> bool {
    match action {
        ActionView::Tell(message) => message.ends(execution),
        _ => false,
    }
}

/// How many of `actions` tell the client that `execution` ended or will
/// not run.
pub open spec fn ends_in(actions: Seq<ActionView>, execution: ExecutionUuid) -> nat
    decreases actions.len(),
{
    if actions.len() == 0 {
        0
    } else {
        ends_in(actions.drop_last(), execution) + if tells_end(actions.last(), execution) {
            1nat
        } else {
            0nat
        }
    }
}

/// The ends told in two lists of actions add up.
pub proof fn lemma_ends_add(a: Seq<ActionView>, b: Seq<ActionView>, execution: ExecutionUuid)
    ensures
        ends_in(a + b, execution) == ends_in(a, execution) + ends_in(b, execution),
    decreases b.len(),
{
    if b.len() == 0 {
        assert(a + b == a);
    } else {
        lemma_ends_add(a, b.drop_last(), execution);
        assert((a + b).drop_last() == a + b.drop_last());
    }
}

/// What the client is told of the executions in `skipped`: of each one
/// that it watches, that it will not run.
pub open spec fn skip_notes(watch: Seq<ExecutionUuid>, skipped: Seq<ExecutionUuid>) -> Seq<
    ActionView,
>
    decreases skipped.len(),
{
    if skipped.len() == 0 {
        Seq::empty()
    } else {
        skip_notes(watch, skipped.drop_last()) + if watch.contains(skipped.last()) {
            seq![ActionView::Tell(ServerMessageView::NotifySkip(skipped.last()))]
        } else {
            Seq::empty()
        }
    }
}

/// What follows the assignments `assignments`: the client is told of
/// each execution that it watches that it started, and each worker is
/// woken.
pub open spec fn start_notes(watch: Seq<ExecutionUuid>, assignments: Seq<Assignment>) -> Seq<
    ActionView,
>
    decreases assignments.len(),
{
    if assignments.len() == 0 {
        Seq::empty()
    } else {
        start_notes(watch, assignments.drop_last()) + (if watch.contains(
            assignments.last().execution,
        ) {
            seq![
                ActionView::Tell(
                    ServerMessageView::NotifyStart(
                        assignments.last().execution,
                        assignments.last().worker,
                    ),
                ),
            ]
        } else {
            Seq::empty()
        }) + seq![ActionView::Wake(assignments.last().worker)]
    }
}

/// What ends an evaluation: where `over`, the client is told that the
/// evaluation is over, with the watched files that came.
pub open spec fn done_notes(over: bool, outcomes: Seq<FileOutcome>) -> Seq<ActionView> {
    if over {
        seq![ActionView::Tell(ServerMessageView::Done(outcomes))]
    } else {
        Seq::empty()
    }
}

/// A single action tells the end of an execution once, or not at all.
pub proof fn lemma_ends_one(action: ActionView, execution: ExecutionUuid)
    ensures
        ends_in(seq![action], execution) == if tells_end(action, execution) {
            1nat
        } else {
            0nat
        },
        ends_in(Seq::empty(), execution) == 0,
{
    reveal_with_fuel(ends_in, 2);
    assert(seq![action].drop_last() == Seq::<ActionView>::empty());
}

/// Whether the action tells the client that an execution of `skipped`
/// will not run.
pub open spec fn tells_skip_of(action: ActionView, skipped: Seq<ExecutionUuid>) -> bool {
    match action {
        ActionView::Tell(ServerMessageView::NotifySkip(e)) => skipped.contains(e),
        _ => false,
    }
}

/// Whether the action tells the client nothing, or that an execution
/// started.
pub open spec fn tells_start_at_most(action: ActionView) -> bool {
    match action {
        ActionView::Tell(ServerMessageView::NotifyStart(_, _)) => true,
        ActionView::Tell(_) => false,
        _ => true,
    }
}

/// Each skipped execution that the client watches is told once, where
/// none is listed twice, and nothing else is told.
pub proof fn lemma_skip_notes(
    watch: Seq<ExecutionUuid>,
    skipped: Seq<ExecutionUuid>,
    execution: ExecutionUuid,
)
    requires
        skipped.no_duplicates(),
    ensures
        ends_in(skip_notes(watch, skipped), execution) == if watch.contains(execution)
            && skipped.contains(execution) {
            1nat
        } else {
            0nat
        },
        forall|k: int|
            0 <= k < skip_notes(watch, skipped).len() ==> tells_skip_of(
                #[trigger] skip_notes(watch, skipped)[k],
                skipped,
            ),
    decreases skipped.len(),
{
    if skipped.len() > 0 {
        let front = skipped.drop_last();
        let last = skipped.last();
        assert(front.no_duplicates()) by {
            assert forall|a: int, b: int|
                0 <= a < front.len() && 0 <= b < front.len() && a != b implies front[a]
                != front[b] by {
                assert(skipped[a] != skipped[b]);
            }
        }
        lemma_skip_notes(watch, front, execution);
        let tail = if watch.contains(last) {
            seq![ActionView::Tell(ServerMessageView::NotifySkip(last))]
        } else {
            Seq::<ActionView>::empty()
        };
        lemma_ends_add(skip_notes(watch, front), tail, execution);
        lemma_ends_one(ActionView::Tell(ServerMessageView::NotifySkip(last)), execution);
        assert(!front.contains(last)) by {
            if front.contains(last) {
                let k = choose|k: int| 0 <= k < front.len() && front[k] == last;
                assert(skipped[k] == skipped[skipped.len() - 1]);
            }
        }
        assert(skipped.contains(execution) <==> front.contains(execution) || last == execution) by {
            if skipped.contains(execution) {
                let k = choose|k: int| 0 <= k < skipped.len() && skipped[k] == execution;
                if k < front.len() {
                    assert(front[k] == execution);
                }
            }
            if front.contains(execution) {
                let k = choose|k: int| 0 <= k < front.len() && front[k] == execution;
                assert(skipped[k] == execution);
            }
            if last == execution {
                assert(skipped[skipped.len() - 1] == execution);
            }
        }
        let all = skip_notes(watch, skipped);
        assert forall|k: int| 0 <= k < all.len() implies tells_skip_of(
            #[trigger] all[k],
            skipped,
        ) by {
            if k < skip_notes(watch, front).len() {
                assert(tells_skip_of(skip_notes(watch, front)[k], front));
                assert(all[k] == skip_notes(watch, front)[k]);
                let e = all[k]->Tell_0->NotifySkip_0;
                let at = choose|at: int| 0 <= at < front.len() && front[at] == e;
                assert(skipped[at] == e);
            } else {
                assert(all[k] == ActionView::Tell(ServerMessageView::NotifySkip(last)));
                assert(skipped[skipped.len() - 1] == last);
            }
        }
    }
}

/// Telling that executions started tells no end.
pub proof fn lemma_start_notes(
    watch: Seq<ExecutionUuid>,
    assignments: Seq<Assignment>,
    execution: ExecutionUuid,
)
    ensures
        ends_in(start_notes(watch, assignments), execution) == 0,
        forall|k: int|
            0 <= k < start_notes(watch, assignments).len() ==> tells_start_at_most(
                #[trigger] start_notes(watch, assignments)[k],
            ),
    decreases assignments.len(),
{
    if assignments.len() > 0 {
        let front = start_notes(watch, assignments.drop_last());
        lemma_start_notes(watch, assignments.drop_last(), execution);
        let told = if watch.contains(assignments.last().execution) {
            seq![
                ActionView::Tell(
                    ServerMessageView::NotifyStart(
                        assignments.last().execution,
                        assignments.last().worker,
                    ),
                ),
            ]
        } else {
            Seq::<ActionView>::empty()
        };
        let wake = seq![ActionView::Wake(assignments.last().worker)];
        lemma_ends_add(front, told, execution);
        lemma_ends_add(front + told, wake, execution);
        lemma_ends_one(
            ActionView::Tell(
                ServerMessageView::NotifyStart(
                    assignments.last().execution,
                    assignments.last().worker,
                ),
            ),
            execution,
        );
        lemma_ends_one(ActionView::Wake(assignments.last().worker), execution);
        let all = start_notes(watch, assignments);
        assert(all == front + told + wake);
        assert forall|k: int| 0 <= k < all.len() implies tells_start_at_most(#[trigger] all[k]) by {
            if k < front.len() {
                assert(all[k] == front[k]);
            }
        }
    }
}

/// Appends to `actions` what the client is told of the executions in
/// `skipped`.
fn tell_skips(
    watch: &ExecutionDAGWatchSet,
    skipped: &Vec<ExecutionUuid>,
    actions: &mut Vec<ExecutorAction>,
)
    ensures
        views(final(actions)@) == views(old(actions)@) + skip_notes(watch.executions@, skipped@),
{
    let mut i: usize = 0;
    assert(skipped@.take(0) == Seq::<ExecutionUuid>::empty());
    assert(views(actions@) == views(old(actions)@) + skip_notes(
        watch.executions@,
        skipped@.take(0),
    ));
    while i < skipped.len()
        invariant
            i <= skipped@.len(),
            views(actions@) == views(old(actions)@) + skip_notes(
                watch.executions@,
                skipped@.take(i as int),
            ),
        decreases skipped@.len() - i,
    {
        let ghost before = views(actions@);
        assert(skipped@.take(i + 1).drop_last() == skipped@.take(i as int));
        if crate::check_dag::contains_uuid(&watch.executions, skipped[i]) {
            actions.push(ExecutorAction::Tell(ExecutorServerMessage::NotifySkip(skipped[i])));
            assert(views(actions@) == before + seq![
                ActionView::Tell(ServerMessageView::NotifySkip(skipped@[i as int])),
            ]);
        } else {
            assert(views(actions@) == before + Seq::<ActionView>::empty());
        }
        i += 1;
    }
    assert(skipped@.take(i as int) == skipped@);
}

/// Appends to `actions` what follows the assignments `assignments`.
fn tell_starts(
    watch: &ExecutionDAGWatchSet,
    assignments: &Vec<Assignment>,
    actions: &mut Vec<ExecutorAction>,
)
    ensures
        views(final(actions)@) == views(old(actions)@) + start_notes(
            watch.executions@,
            assignments@,
        ),
{
    let mut i: usize = 0;
    assert(assignments@.take(0) == Seq::<Assignment>::empty());
    assert(views(actions@) == views(old(actions)@) + start_notes(
        watch.executions@,
        assignments@.take(0),
    ));
    while i < assignments.len()
        invariant
            i <= assignments@.len(),
            views(actions@) == views(old(actions)@) + start_notes(
                watch.executions@,
                assignments@.take(i as int),
            ),
        decreases assignments@.len() - i,
    {
        let ghost before = views(actions@);
        let one = assignments[i];
        assert(assignments@.take(i + 1).drop_last() == assignments@.take(i as int));
        if crate::check_dag::contains_uuid(&watch.executions, one.execution) {
            actions.push(
                ExecutorAction::Tell(ExecutorServerMessage::NotifyStart(one.execution, one.worker)),
            );
        }
        actions.push(ExecutorAction::Wake(one.worker));
        assert(views(actions@) == before + (if watch.executions@.contains(one.execution) {
            seq![
                ActionView::Tell(ServerMessageView::NotifyStart(one.execution, one.worker)),
            ]
        } else {
            Seq::<ActionView>::empty()
        }) + seq![ActionView::Wake(one.worker)]);
        i += 1;
    }
    assert(assignments@.take(i as int) == assignments@);
}

/// A copy of `outcomes`.
fn copy_outcomes(outcomes: &Vec<FileOutcome>) -> (copy: Vec<FileOutcome>)
    ensures
        copy@ == outcomes@,
{
    let mut copy: Vec<FileOutcome> = Vec::new();
    let mut i: usize = 0;
    while i < outcomes.len()
        invariant
            i <= outcomes@.len(),
            copy@ == outcomes@.take(i as int),
        decreases outcomes@.len() - i,
    {
        copy.push(outcomes[i]);
        assert(copy@ == outcomes@.take(i + 1));
        i += 1;
    }
    assert(outcomes@.take(i as int) == outcomes@);
    copy
}

impl ExecutorData {
    /// Whether `new` is `self` brought to rest, with `assignments` the
    /// assignments made and `notes` what follows from them: work was
    /// handed out, the client is told what started and, where an
    /// evaluation has nothing left to do, that it is over.
    pub open spec fn settled_to(
        &self,
        now: u64,
        new: &ExecutorData,
        assignments: Seq<Assignment>,
        notes: Seq<ActionView>,
    ) -> bool {
        &&& (new.ready_execs@, new.waiting_workers@, assignments) == assign_all(
            self.ready_execs@,
            self.waiting_workers@,
            now,
        )
        &&& new.status@ == started(self.status@, assignments)
        &&& crate::scheduler::same_fate(self.status@, new.status@)
        &&& new.evaluating == (self.evaluating && !new.complete())
        &&& notes == start_notes(self.callbacks.executions@, assignments) + done_notes(
            self.evaluating && new.complete(),
            self.outcomes@,
        )
        &&& new.dag == self.dag
        &&& new.callbacks == self.callbacks
        &&& new.dependents == self.dependents
        &&& new.missing_deps == self.missing_deps
        &&& new.file_keys == self.file_keys
        &&& new.outcomes == self.outcomes
    }

    /// Brings the state to rest after a change: hands out work, tells
    /// the client what started and, where an evaluation has nothing left
    /// to do, that it is over. Returns the assignments.
    pub fn settle(&mut self, now: u64, actions: &mut Vec<ExecutorAction>) -> (assignments: Vec<
        Assignment,
    >)
        requires
            old(self).wf(),
        ensures
            final(self).wf(),
            old(self).settled_to(
                now,
                final(self),
                assignments@,
                views(final(actions)@).skip(views(old(actions)@).len() as int),
            ),
            views(final(actions)@).len() >= views(old(actions)@).len(),
            views(final(actions)@).take(views(old(actions)@).len() as int) == views(old(actions)@),
    {
        let assignments = self.schedule(now);
        tell_starts(&self.callbacks, &assignments, actions);
        let ghost told = views(actions@);
        if self.evaluating && self.is_complete() {
            actions.push(ExecutorAction::Tell(ExecutorServerMessage::Done(copy_outcomes(&self.outcomes))));
            self.evaluating = false;
            assert(views(actions@) == told + done_notes(true, self.outcomes@));
        } else {
            assert(views(actions@) == told + done_notes(false, self.outcomes@));
        }
        proof {
            let before = views(old(actions)@);
            let after = views(actions@);
            let notes = start_notes(old(self).callbacks.executions@, assignments@) + done_notes(
                old(self).evaluating && self.complete(),
                old(self).outcomes@,
            );
            assert(after == before + notes);
            assert(after.skip(before.len() as int) == notes);
            assert(after.take(before.len() as int) == before);
        }
        assignments
    }
}

/// The executor.
#[derive(Debug)]
pub struct Executor {
    /// The state of the scheduler.
    pub data: ExecutorData,
    /// The contents that the executor holds.
    pub store: FileStore,
}

/// A worker, as the executor knows it.
#[derive(Clone, Debug)]
pub struct WorkerConn {
    /// The worker.
    pub uuid: WorkerUuid,
    /// The name that the worker gives.
    pub name: String,
}

/// The key that `outputs` gives for `file`: that of the last output
/// with the file.
pub open spec fn reported(outputs: Seq<WorkerOutput>, file: FileUuid) -> Option<FileKey>
    decreases outputs.len(),
{
    if outputs.len() == 0 {
        None
    } else if outputs.last().file == file {
        Some(outputs.last().key)
    } else {
        reported(outputs.drop_last(), file)
    }
}

/// Whether `outputs` gives a key for each file of `made`.
pub open spec fn all_reported(made: Seq<FileUuid>, outputs: Seq<WorkerOutput>) -> bool {
    forall|k: int| 0 <= k < made.len() ==> reported(outputs, #[trigger] made[k]) is Some
}

/// The keys that `outputs` gives for the files of `made`, in their
/// order.
pub open spec fn reported_keys(made: Seq<FileUuid>, outputs: Seq<WorkerOutput>) -> Seq<FileKey> {
    Seq::new(made.len(), |k: int| reported(outputs, made[k]).unwrap())
}

/// The watched files of `made` for which `outputs` gives a key, each
/// with its key and with `success`.
pub open spec fn new_outcomes(
    watch: Seq<FileUuid>,
    made: Seq<FileUuid>,
    outputs: Seq<WorkerOutput>,
    success: bool,
) -> Seq<FileOutcome>
    decreases made.len(),
{
    if made.len() == 0 {
        Seq::empty()
    } else {
        new_outcomes(watch, made.drop_last(), outputs, success) + if watch.contains(made.last())
            && reported(outputs, made.last()) is Some {
            seq![
                FileOutcome {
                    file: made.last(),
                    key: reported(outputs, made.last()).unwrap(),
                    success,
                },
            ]
        } else {
            Seq::empty()
        }
    }
}

/// The key that `outputs` gives for `file`.
pub fn lookup_output(outputs: &Vec<WorkerOutput>, file: FileUuid) -> (key: Option<FileKey>)
    ensures
        key == reported(outputs@, file),
{
    let mut key: Option<FileKey> = None;
    let mut i: usize = 0;
    assert(outputs@.take(0) == Seq::<WorkerOutput>::empty());
    while i < outputs.len()
        invariant
            i <= outputs@.len(),
            key == reported(outputs@.take(i as int), file),
        decreases outputs@.len() - i,
    {
        assert(outputs@.take(i + 1).drop_last() == outputs@.take(i as int));
        if outputs[i].file == file {
            key = Some(outputs[i].key);
        }
        i += 1;
    }
    assert(outputs@.take(i as int) == outputs@);
    key
}

/// The keys that `outputs` gives for the files of `made`, if it gives
/// one for each.
pub fn resolve_outputs(made: &Vec<FileUuid>, outputs: &Vec<WorkerOutput>) -> (keys: Option<
    Vec<FileKey>,
>)
    ensures
        keys is Some == all_reported(made@, outputs@),
        keys matches Some(list) ==> list@ == reported_keys(made@, outputs@),
{
    let mut keys: Vec<FileKey> = Vec::new();
    let mut k: usize = 0;
    while k < made.len()
        invariant
            k <= made@.len(),
            keys@.len() == k,
            forall|j: int| 0 <= j < k ==> reported(outputs@, #[trigger] made@[j]) == Some(keys@[j]),
        decreases made@.len() - k,
    {
        match lookup_output(outputs, made[k]) {
            Some(key) => {
                keys.push(key);
            },
            None => {
                return None;
            },
        }
        k += 1;
    }
    assert(keys@ =~= reported_keys(made@, outputs@));
    Some(keys)
}

/// Appends to `outcomes` the watched files of `made` for which
/// `outputs` gives a key.
fn record_outcomes(
    watch: &Vec<FileUuid>,
    made: &Vec<FileUuid>,
    outputs: &Vec<WorkerOutput>,
    success: bool,
    outcomes: &mut Vec<FileOutcome>,
)
    ensures
        final(outcomes)@ == old(outcomes)@ + new_outcomes(watch@, made@, outputs@, success),
{
    let mut k: usize = 0;
    assert(made@.take(0) == Seq::<FileUuid>::empty());
    assert(outcomes@ == old(outcomes)@ + new_outcomes(watch@, made@.take(0), outputs@, success));
    while k < made.len()
        invariant
            k <= made@.len(),
            outcomes@ == old(outcomes)@ + new_outcomes(
                watch@,
                made@.take(k as int),
                outputs@,
                success,
            ),
        decreases made@.len() - k,
    {
        let ghost before = outcomes@;
        assert(made@.take(k + 1).drop_last() == made@.take(k as int));
        let key = lookup_output(outputs, made[k]);
        if contains_uuid(watch, made[k]) && key.is_some() {
            outcomes.push(FileOutcome { file: made[k], key: key.unwrap(), success });
            assert(outcomes@ == before + seq![
                FileOutcome { file: made@[k as int], key: key.unwrap(), success },
            ]);
        } else {
            assert(outcomes@ == before + Seq::<FileOutcome>::empty());
        }
        k += 1;
    }
    assert(made@.take(k as int) == made@);
}

/// The text with which the executor says that a worker did not send
/// every file of an execution.
pub open spec fn missing_output_text() -> Seq<char> {
    "the worker did not send every output"@
}

/// What the client is told of how an execution ended: what the worker
/// said, unless it said that the execution returned zero and did not
/// send every file; that is an error of the sandbox.
pub open spec fn verdict(result: ResultView, complete: bool) -> ResultView {
    if result.status is Success && !complete {
        ResultView {
            status: StatusView::InternalError(missing_output_text()),
            resources: result.resources,
        }
    } else {
        result
    }
}

/// What the client is told when the execution `job` ends with `result`:
/// that it ended, where the client watches it.
pub open spec fn end_notes(watch: Seq<ExecutionUuid>, job: ExecutionUuid, result: ResultView) -> Seq<
    ActionView,
> {
    if watch.contains(job) {
        seq![ActionView::Tell(ServerMessageView::NotifyDone(job, result))]
    } else {
        Seq::empty()
    }
}

/// A step that does nothing and lets the loop go on.
pub open spec fn idle_step(step: Step) -> bool {
    step.actions@.len() == 0 && step.flow == Flow::GoOn && step.skipped@.len() == 0
        && step.assignments@.len() == 0
}

impl ExecutorData {
    /// Whether `new` is `self` with the watched files that came with the
    /// end of an execution.
    pub open spec fn recorded_to(
        &self,
        made: Seq<FileUuid>,
        outputs: Seq<WorkerOutput>,
        success: bool,
        new: &ExecutorData,
    ) -> bool {
        &&& new.outcomes@ == self.outcomes@ + new_outcomes(
            self.callbacks.files@,
            made,
            outputs,
            success,
        )
        &&& self.same_graph(new)
        &&& new.evaluating == self.evaluating
        &&& new.status == self.status
        &&& new.waiting_workers == self.waiting_workers
        &&& new.ready_execs == self.ready_execs
        &&& new.missing_deps == self.missing_deps
        &&& new.file_keys == self.file_keys
    }

    /// Whether `new` and `step` are what the end of the job of `worker`
    /// makes of `self`, through the states `recorded`, where the files
    /// that came are recorded, and `ended`, where the execution is over.
    pub open spec fn finished_through(
        &self,
        worker: WorkerUuid,
        result: ResultView,
        outputs: Seq<WorkerOutput>,
        now: u64,
        recorded: &ExecutorData,
        ended: &ExecutorData,
        new: &ExecutorData,
        step: Step,
    ) -> bool {
        let job = self.waiting_workers@[slot_of(self.waiting_workers@, worker)].job.unwrap();
        let made = self.execs()[place_of(self.execs(), job)].makes();
        let complete = all_reported(made, outputs);
        let ok = result.status is Success && complete;
        let watch = self.callbacks.executions@;
        let told = end_notes(watch, job, verdict(result, complete)) + skip_notes(
            watch,
            step.skipped@,
        );
        &&& self.recorded_to(made, outputs, ok, recorded)
        &&& if ok {
            recorded.succeeded_to(job, reported_keys(made, outputs), ended, true)
                && step.skipped@.len() == 0
        } else {
            recorded.failed_to(job, ended, step.skipped@)
        }
        &&& ended.wf()
        &&& views(step.actions@).len() >= told.len()
        &&& views(step.actions@).take(told.len() as int) == told
        &&& ended.settled_to(
            now,
            new,
            step.assignments@,
            views(step.actions@).skip(told.len() as int),
        )
        &&& step.flow == Flow::GoOn
    }

    /// Whether `new` and `step` are what the end of the job of `worker`,
    /// with the result `result` and the files `outputs`, makes of
    /// `self`. Where the worker has no job, nothing happens. Else the
    /// files that the client watches are recorded; the execution has
    /// succeeded where it returned zero and every file came, and has
    /// failed else; the client is told; and the state is brought to
    /// rest.
    pub open spec fn finished_to(
        &self,
        worker: WorkerUuid,
        result: ResultView,
        outputs: Seq<WorkerOutput>,
        now: u64,
        new: &ExecutorData,
        step: Step,
    ) -> bool {
        if listed(self.waiting_workers@, worker) && self.waiting_workers@[slot_of(
            self.waiting_workers@,
            worker,
        )].job is Some {
            exists|recorded: ExecutorData, ended: ExecutorData| #[trigger]
                self.finished_through(worker, result, outputs, now, &recorded, &ended, new, step)
        } else {
            *new == *self && idle_step(step)
        }
    }

    /// Takes the end of the job of `worker`.
    pub fn worker_done(
        &mut self,
        worker: WorkerUuid,
        result: ExecutionResult,
        outputs: &Vec<WorkerOutput>,
        now: u64,
    ) -> (step: Step)
        requires
            old(self).wf(),
        ensures
            final(self).wf(),
            old(self).finished_to(worker, result@, outputs@, now, final(self), step),
    {
        let ghost start = *self;
        let k = match find_worker(&self.waiting_workers, worker) {
            Some(k) => k,
            None => {
                return Step {
                    actions: Vec::new(),
                    flow: Flow::GoOn,
                    skipped: Vec::new(),
                    assignments: Vec::new(),
                };
            },
        };
        proof {
            reveal(workers_ok);
            lemma_slot_of(self.waiting_workers@, k as int);
        }
        let job = match self.waiting_workers[k].job {
            Some(job) => job,
            None => {
                return Step {
                    actions: Vec::new(),
                    flow: Flow::GoOn,
                    skipped: Vec::new(),
                    assignments: Vec::new(),
                };
            },
        };
        let place = self.dag.find_execution(job);
        assert(place is Some) by {
            reveal(cover_ok);
            assert(crate::scheduler::assigned(self.waiting_workers@, job));
            assert(self.dag.has_execution(job));
        }
        let place = place.unwrap();
        proof {
            crate::scheduler::lemma_place(&self.dag, place as int);
        }
        let made = self.dag.executions()[place].products();
        let keys = resolve_outputs(&made, outputs);
        let complete = keys.is_some();
        let ok = result.is_success() && complete;
        record_outcomes(&self.callbacks.files, &made, outputs, ok, &mut self.outcomes);
        let ghost recorded = *self;
        let mut actions: Vec<ExecutorAction> = Vec::new();
        if contains_uuid(&self.callbacks.executions, job) {
            let told = if result.is_success() && !complete {
                ExecutionResult {
                    status: ExecutionStatus::InternalError(
                        String::from_str("the worker did not send every output"),
                    ),
                    resources: result.resources,
                }
            } else {
                result
            };
            actions.push(ExecutorAction::Tell(ExecutorServerMessage::NotifyDone(job, told)));
        }
        assert(views(actions@) == end_notes(
            self.callbacks.executions@,
            job,
            verdict(result@, complete),
        ));
        let skipped = if ok {
            let keys = keys.unwrap();
            let done = self.exec_succeeded(job, &keys);
            assert(done);
            Vec::new()
        } else {
            self.exec_failed(job)
        };
        let ghost ended = *self;
        tell_skips(&self.callbacks, &skipped, &mut actions);
        let ghost told = views(actions@);
        let assignments = self.settle(now, &mut actions);
        let step = Step { actions, flow: Flow::GoOn, skipped, assignments };
        proof {
            assert(start.finished_through(
                worker,
                result@,
                outputs@,
                now,
                &recorded,
                &ended,
                self,
                step,
            ));
        }
        step
    }
}

/// The text with which the executor says that it got bytes that are
/// no message.
pub open spec fn garbled_text() -> Seq<char> {
    "a message could not be read"@
}

/// The text with which the executor says that the content of a file is
/// not the one that was announced.
pub open spec fn mismatch_text() -> Seq<char> {
    "the content of a file does not have the announced key"@
}

/// The text with which the executor says that it was asked for a
/// content that its store does not hold.
pub open spec fn missing_text() -> Seq<char> {
    "the content of a file is not in the store"@
}

impl ExecutorData {
    /// Whether `new` is `self` after the evaluation was given up: no
    /// graph is left, no evaluation goes on, and the workers without a
    /// job stay.
    pub open spec fn aborted_to(&self, new: &ExecutorData) -> bool {
        &&& new.is_empty()
        &&& new.waiting_workers@ == crate::scheduler::idle_slots(self.waiting_workers@)
    }

    /// Gives the evaluation up.
    pub fn abort(&mut self)
        requires
            old(self).wf(),
        ensures
            final(self).wf(),
            old(self).aborted_to(final(self)),
    {
        let dag = ExecutionDAGData::new();
        let watch = ExecutionDAGWatchSet { executions: Vec::new(), files: Vec::new() };
        proof {
            reveal(workers_ok);
            assert(dag.sources() == Seq::<FileUuid>::empty());
            assert(dag.ranked_by(Seq::<nat>::empty()));
        }
        self.setup(dag, watch);
        self.evaluating = false;
        self.dependents = HashMap::new();
        proof {
            reveal(crate::scheduler::queue_ok);
            reveal(cover_ok);
            reveal(crate::scheduler::counts_ok);
            reveal(crate::scheduler::index_ok);
            if self.ready_execs@.len() > 0 {
                assert(crate::queue::queued(self.ready_execs@, self.ready_execs@[0].uuid));
                assert(self.dag.has_execution(self.ready_execs@[0].uuid));
            }
            assert forall|e: ExecutionUuid| !self.status@.contains_key(e) by {
                assert(!self.dag.has_execution(e));
            }
            assert(self.status@ =~= Map::<ExecutionUuid, ExecutionState>::empty());
            assert(self.missing_deps@ =~= Map::<ExecutionUuid, usize>::empty());
        }
    }

    /// Whether `new` and `step` are what a message of the worker `conn`
    /// makes of `self`: a worker that asks for work is listed; the end
    /// of a job is taken; a worker that is gone is forgotten. Bytes that
    /// are no message end the evaluation: the client is told, and the
    /// worker is forgotten.
    pub open spec fn worker_step(
        &self,
        conn: &WorkerConn,
        received: Received<WorkerClientMessage>,
        now: u64,
        new: &ExecutorData,
        step: Step,
    ) -> bool {
        match received {
            Received::Message(WorkerClientMessage::GetWork) => exists|
                joined: ExecutorData,
                added: bool,
            | #[trigger]
                self.joined_to(conn.uuid, conn.name@, now, &joined, added) && joined.wf()
                    && joined.settled_to(now, new, step.assignments@, views(step.actions@))
                    && step.flow == Flow::GoOn && step.skipped@.len() == 0,
            Received::Message(WorkerClientMessage::WorkerDone(result, outputs)) => self.finished_to(
                conn.uuid,
                result@,
                outputs@,
                now,
                new,
                step,
            ),
            Received::Closed => exists|left: ExecutorData, removed: bool| #[trigger]
                self.left_to(conn.uuid, &left, removed) && left.wf() && left.settled_to(
                    now,
                    new,
                    step.assignments@,
                    views(step.actions@),
                ) && step.flow == Flow::Stop && step.skipped@.len() == 0,
            Received::Garbled => exists|left: ExecutorData, removed: bool| #[trigger]
                self.left_to(conn.uuid, &left, removed) && left.wf() && left.aborted_to(new)
                    && views(step.actions@) == seq![
                    ActionView::Tell(ServerMessageView::Error(garbled_text())),
                ] && step.flow == Flow::Stop && step.skipped@.len() == 0
                    && step.assignments@.len() == 0,
        }
    }
}

/// Takes what came from the worker `conn`, at the time `now`, and says
/// what is to be done.
pub fn worker_thread(
    executor: &mut Executor,
    conn: &WorkerConn,
    received: Received<WorkerClientMessage>,
    now: u64,
) -> (step: Step)
    requires
        old(executor).data.wf(),
    ensures
        final(executor).data.wf(),
        final(executor).store == old(executor).store,
        old(executor).data.worker_step(conn, received, now, &final(executor).data, step),
{
    match received {
        Received::Message(WorkerClientMessage::GetWork) => {
            let added = executor.data.worker_waits(conn.uuid, conn.name.clone(), now);
            let ghost joined = executor.data;
            let mut actions: Vec<ExecutorAction> = Vec::new();
            let assignments = executor.data.settle(now, &mut actions);
            let step = Step { actions, flow: Flow::GoOn, skipped: Vec::new(), assignments };
            proof {
                assert(views(step.actions@).skip(0) == views(step.actions@));
                assert(old(executor).data.joined_to(conn.uuid, conn.name@, now, &joined, added));
            }
            step
        },
        Received::Message(WorkerClientMessage::WorkerDone(result, outputs)) => {
            executor.data.worker_done(conn.uuid, result, &outputs, now)
        },
        Received::Closed => {
            let removed = executor.data.worker_gone(conn.uuid);
            let ghost left = executor.data;
            let mut actions: Vec<ExecutorAction> = Vec::new();
            let assignments = executor.data.settle(now, &mut actions);
            let step = Step { actions, flow: Flow::Stop, skipped: Vec::new(), assignments };
            proof {
                assert(views(step.actions@).skip(0) == views(step.actions@));
                assert(old(executor).data.left_to(conn.uuid, &left, removed));
            }
            step
        },
        Received::Garbled => {
            let removed = executor.data.worker_gone(conn.uuid);
            let ghost left = executor.data;
            executor.data.abort();
            let mut actions: Vec<ExecutorAction> = Vec::new();
            actions.push(
                ExecutorAction::Tell(
                    ExecutorServerMessage::Error(String::from_str("a message could not be read")),
                ),
            );
            let step = Step {
                actions,
                flow: Flow::Stop,
                skipped: Vec::new(),
                assignments: Vec::new(),
            };
            proof {
                assert(views(step.actions@) == seq![
                    ActionView::Tell(ServerMessageView::Error(garbled_text())),
                ]);
                assert(old(executor).data.left_to(conn.uuid, &left, removed));
            }
            step
        },
    }
}

/// The keys of the files `needs`, as `keys` knows them.
pub open spec fn dependency_keys(needs: Seq<FileUuid>, keys: Map<FileUuid, FileKey>) -> Seq<
    FileDependency,
> {
    Seq::new(needs.len(), |k: int| FileDependency { file: needs[k], key: keys[needs[k]] })
}

/// The job of the worker `uuid`, if it has one: the execution, and the
/// keys of the files that it needs.
pub fn wait_for_work(executor: &Executor, uuid: &WorkerUuid) -> (work: Option<Work>)
    requires
        executor.data.wf(),
    ensures
        work is Some == (listed(executor.data.waiting_workers@, *uuid)
            && executor.data.waiting_workers@[slot_of(
            executor.data.waiting_workers@,
            *uuid,
        )].job is Some),
        work matches Some(job) ==> {
            let running = executor.data.waiting_workers@[slot_of(
                executor.data.waiting_workers@,
                *uuid,
            )].job.unwrap();
            let execution = executor.data.execs()[place_of(executor.data.execs(), running)];
            &&& execution.uuid == running
            &&& job.execution.same(&execution)
            &&& job.dep_keys@ == dependency_keys(execution.needs(), executor.data.file_keys@)
            &&& forall|k: int|
                0 <= k < execution.needs().len() ==> executor.data.file_keys@.contains_key(
                    #[trigger] execution.needs()[k],
                )
        },
{
    let data = &executor.data;
    let k = match find_worker(&data.waiting_workers, *uuid) {
        Some(k) => k,
        None => {
            return None;
        },
    };
    proof {
        reveal(workers_ok);
        lemma_slot_of(data.waiting_workers@, k as int);
    }
    let running = match data.waiting_workers[k].job {
        Some(job) => job,
        None => {
            return None;
        },
    };
    let place = data.dag.find_execution(running);
    assert(place is Some) by {
        reveal(cover_ok);
        assert(crate::scheduler::assigned(data.waiting_workers@, running));
        assert(data.dag.has_execution(running));
    }
    let place = place.unwrap();
    let execution = &data.dag.executions()[place];
    proof {
        crate::scheduler::lemma_place(&data.dag, place as int);
        reveal(crate::scheduler::counts_ok);
        assert(crate::scheduler::assigned(data.waiting_workers@, running));
        assert(data.status@[execution.uuid] is Running);
        crate::cascade::lemma_unready_zero(execution.needs(), data.ready_files());
    }
    let needs = execution.dependencies();
    let mut dep_keys: Vec<FileDependency> = Vec::new();
    let mut i: usize = 0;
    while i < needs.len()
        invariant
            i <= needs@.len(),
            needs@ == execution.needs(),
            forall|k: int|
                0 <= k < needs@.len() ==> data.file_keys@.contains_key(#[trigger] needs@[k]),
            dep_keys@ == dependency_keys(needs@, data.file_keys@).take(i as int),
        decreases needs@.len() - i,
    {
        broadcast use vstd::std_specs::hash::group_hash_axioms;

        let key = data.file_keys.get(&needs[i]);
        assert(key is Some);
        let key = *key.unwrap();
        dep_keys.push(FileDependency { file: needs[i], key });
        assert(dep_keys@ == dependency_keys(needs@, data.file_keys@).take(i + 1));
        i += 1;
    }
    assert(dependency_keys(needs@, data.file_keys@).take(i as int) == dependency_keys(
        needs@,
        data.file_keys@,
    ));
    Some(Work { execution: execution.duplicate(), dep_keys })
}

/// The milliseconds from `since` to `now`; none where `now` is the
/// earlier.
pub open spec fn elapsed(now: u64, since: u64) -> u64 {
    if now >= since {
        (now - since) as u64
    } else {
        0
    }
}

/// The keys of the first `n` supplied files whose content `store`
/// holds.
pub open spec fn local_keys(provided: Seq<ProvidedFile>, store: &FileStore, n: nat) -> Map<
    FileUuid,
    FileKey,
>
    decreases n,
{
    if n == 0 {
        Map::empty()
    } else if store.holds(provided[n - 1].spec_key()) {
        local_keys(provided, store, (n - 1) as nat).insert(
            provided[n - 1].spec_uuid(),
            provided[n - 1].spec_key(),
        )
    } else {
        local_keys(provided, store, (n - 1) as nat)
    }
}

/// What the client is asked at the start of an evaluation: to send each
/// of the first `n` supplied files whose content `store` does not hold.
pub open spec fn ask_notes(provided: Seq<ProvidedFile>, store: &FileStore, n: nat) -> Seq<
    ActionView,
>
    decreases n,
{
    if n == 0 {
        Seq::empty()
    } else if store.holds(provided[n - 1].spec_key()) {
        ask_notes(provided, store, (n - 1) as nat)
    } else {
        ask_notes(provided, store, (n - 1) as nat).push(
            ActionView::Tell(ServerMessageView::AskFile(provided[n - 1].spec_uuid())),
        )
    }
}

/// The files with a local key are among the first supplied files.
proof fn lemma_local_keys(provided: Seq<ProvidedFile>, store: &FileStore, n: nat, file: FileUuid)
    requires
        n <= provided.len(),
        local_keys(provided, store, n).contains_key(file),
    ensures
        exists|k: int| 0 <= k < n && (#[trigger] provided[k]).spec_uuid() == file,
    decreases n,
{
    if n > 0 {
        if provided[n - 1].spec_uuid() == file {
        } else {
            lemma_local_keys(provided, store, (n - 1) as nat, file);
            let k = choose|k: int| 0 <= k < n - 1 && (#[trigger] provided[k]).spec_uuid() == file;
            assert(0 <= k < n && provided[k].spec_uuid() == file);
        }
    }
}

impl ExecutorData {
    /// What the executor says of the worker in `slot` at the time `now`.
    pub open spec fn worker_status(&self, slot: crate::scheduler::WorkerSlot, now: u64) -> WorkerStatusView {
        WorkerStatusView {
            uuid: slot.worker,
            name: slot.name@,
            current_job: match slot.job {
                Some(job) => Some(
                    (
                        self.execs()[place_of(self.execs(), job)].description@,
                        elapsed(now, slot.since),
                    ),
                ),
                None => None,
            },
        }
    }

    /// What the executor says that it is doing at the time `now`.
    pub open spec fn snapshot(&self, now: u64) -> SnapshotView {
        SnapshotView {
            connected_workers: Seq::new(
                self.waiting_workers@.len(),
                |k: int| self.worker_status(self.waiting_workers@[k], now),
            ),
            ready_execs: self.ready_execs@.len() as usize,
            waiting_execs: self.missing_deps@.len() as usize,
        }
    }

    /// What the executor is doing at the time `now`.
    pub fn status_at(&self, now: u64) -> (status: ExecutorStatus)
        requires
            self.wf(),
        ensures
            status@ == self.snapshot(now),
    {
        broadcast use vstd::std_specs::hash::group_hash_axioms;

        let mut workers: Vec<ExecutorWorkerStatus> = Vec::new();
        let mut k: usize = 0;
        while k < self.waiting_workers.len()
            invariant
                k <= self.waiting_workers@.len(),
                self.wf(),
                workers@.len() == k,
                forall|j: int|
                    0 <= j < k ==> (#[trigger] workers@[j])@ == self.worker_status(
                        self.waiting_workers@[j],
                        now,
                    ),
            decreases self.waiting_workers@.len() - k,
        {
            let slot = &self.waiting_workers[k];
            let current_job = match slot.job {
                Some(job) => {
                    let place = self.dag.find_execution(job);
                    assert(place is Some) by {
                        reveal(cover_ok);
                        reveal(workers_ok);
                        assert(crate::scheduler::assigned(self.waiting_workers@, job));
                        assert(self.dag.has_execution(job));
                    }
                    let place = place.unwrap();
                    proof {
                        crate::scheduler::lemma_place(&self.dag, place as int);
                    }
                    let since = slot.since;
                    let spent = if now >= since {
                        now - since
                    } else {
                        0
                    };
                    Some((self.dag.executions()[place].description.clone(), spent))
                },
                None => None,
            };
            workers.push(ExecutorWorkerStatus { uuid: slot.worker, name: slot.name.clone(), current_job });
            k += 1;
        }
        let status = ExecutorStatus {
            connected_workers: workers,
            ready_execs: self.ready_execs.len(),
            waiting_execs: self.missing_deps.len(),
        };
        assert(status@.connected_workers =~= self.snapshot(now).connected_workers);
        status
    }

    /// Whether `seeded` is the state in which the evaluation of `dag`
    /// starts once the supplied files that `store` holds are there: no
    /// other file is there, and each execution waits or, where it
    /// misses no file, can start.
    pub open spec fn seeded_to(
        &self,
        dag: &ExecutionDAGData,
        callbacks: &ExecutionDAGWatchSet,
        store: &FileStore,
        seeded: &ExecutorData,
    ) -> bool {
        &&& seeded.dag == *dag
        &&& seeded.callbacks == *callbacks
        &&& seeded.evaluating
        &&& seeded.outcomes@.len() == 0
        &&& seeded.waiting_workers@ == crate::scheduler::idle_slots(self.waiting_workers@)
        &&& seeded.file_keys@ == local_keys(dag.provided(), store, dag.provided().len())
        &&& forall|i: int|
            0 <= i < dag.execs().len() ==> seeded.status@[(#[trigger] dag.execs()[i]).uuid]
                == if crate::scheduler::unready(dag.execs()[i].needs(), seeded.ready_files()) == 0 {
                ExecutionState::Ready
            } else {
                ExecutionState::Waiting
            }
    }
}

impl Executor {
    /// An executor with no graph, no worker and an empty store.
    pub fn new() -> (executor: Executor)
        ensures
            executor.data.wf(),
            executor.data.is_empty(),
            executor.data.waiting_workers@.len() == 0,
            executor.data.complete(),
            forall|key: FileKey| !executor.store.holds(key),
    {
        Executor { data: ExecutorData::new(), store: FileStore::new() }
    }

    /// Whether `new` and `step` are what the request to evaluate `dag`,
    /// watched as `callbacks` says, makes of `self`. A graph that is
    /// refused changes nothing: the client is told why, and the loop
    /// ends. Else the evaluation starts: the supplied files that the
    /// store holds are there, the client is asked for the others, and
    /// the state is brought to rest.
    pub open spec fn evaluated_to(
        &self,
        dag: &ExecutionDAGData,
        callbacks: &ExecutionDAGWatchSet,
        now: u64,
        new: &Executor,
        step: Step,
    ) -> bool {
        let asked = ask_notes(dag.provided(), &self.store, dag.provided().len());
        &&& new.store == self.store
        &&& step.skipped@.len() == 0
        &&& if dag.valid() && dag.knows(callbacks) {
            &&& step.flow == Flow::GoOn
            &&& views(step.actions@).len() >= asked.len()
            &&& views(step.actions@).take(asked.len() as int) == asked
            &&& exists|seeded: ExecutorData| #[trigger]
                self.data.seeded_to(dag, callbacks, &self.store, &seeded) && seeded.wf()
                    && seeded.settled_to(
                    now,
                    &new.data,
                    step.assignments@,
                    views(step.actions@).skip(asked.len() as int),
                )
        } else {
            &&& step.flow == Flow::Stop
            &&& new.data == self.data
            &&& step.assignments@.len() == 0
            &&& exists|error: DagError| #[trigger]
                dag.refused_with(callbacks, error) && views(step.actions@) == seq![
                    ActionView::Tell(ServerMessageView::Error(error.text())),
                ]
        }
    }

    /// Takes the request to evaluate a graph.
    fn on_evaluate(&mut self, dag: ExecutionDAGData, callbacks: ExecutionDAGWatchSet, now: u64) -> (step:
        Step)
        requires
            old(self).data.wf(),
        ensures
            final(self).data.wf(),
            old(self).evaluated_to(&dag, &callbacks, now, final(self), step),
    {
        match check_dag(&dag, &callbacks) {
            Err(error) => {
                let mut actions: Vec<ExecutorAction> = Vec::new();
                actions.push(ExecutorAction::Tell(ExecutorServerMessage::Error(error.message())));
                assert(views(actions@) == seq![
                    ActionView::Tell(ServerMessageView::Error(error.text())),
                ]);
                assert(dag.refused_with(&callbacks, error));
                Step { actions, flow: Flow::Stop, skipped: Vec::new(), assignments: Vec::new() }
            },
            Ok(()) => {
                proof {
                    reveal(workers_ok);
                }
                self.data.setup(dag, callbacks);
                let ghost fresh = self.data;
                let mut actions: Vec<ExecutorAction> = Vec::new();
                let count = self.data.dag.provided_files().len();
                let mut i: usize = 0;
                proof {
                    reveal(crate::scheduler::counts_ok);
                    crate::finish::lemma_woken_none(
                        &fresh.dag,
                        fresh.status@,
                        fresh.missing_deps@,
                        fresh.ready_files(),
                    );
                }
                while i < count
                    invariant
                        i <= count,
                        count == dag.provided().len(),
                        self.data.wf(),
                        self.store == old(self).store,
                        self.data.dag == dag,
                        self.data.callbacks == callbacks,
                        self.data.evaluating,
                        self.data.outcomes@.len() == 0,
                        self.data.waiting_workers == fresh.waiting_workers,
                        fresh.dag == dag,
                        fresh.ready_files() == Set::<FileUuid>::empty(),
                        self.data.file_keys@ == local_keys(dag.provided(), &self.store, i as nat),
                        crate::scheduler::woken(
                            &dag,
                            fresh.status@,
                            self.data.ready_files(),
                            self.data.status@,
                        ),
                        views(actions@) == ask_notes(dag.provided(), &self.store, i as nat),
                    decreases count - i,
                {
                    let file = self.data.dag.provided_files()[i].uuid();
                    let key = self.data.dag.provided_files()[i].key();
                    let ghost before = self.data;
                    if self.store.contains(key) {
                        proof {
                            if self.data.file_keys@.contains_key(file) {
                                lemma_local_keys(dag.provided(), &self.store, i as nat, file);
                            }
                            assert(dag.provided_uuids()[i as int] == file);
                        }
                        let taken = self.data.file_ready(file, key);
                        assert(taken);
                        proof {
                            assert(before.ready_files().subset_of(self.data.ready_files()));
                            crate::finish::lemma_woken_twice(
                                &dag,
                                fresh.status@,
                                before.ready_files(),
                                before.status@,
                                self.data.ready_files(),
                                self.data.status@,
                            );
                        }
                    } else {
                        actions.push(ExecutorAction::Tell(ExecutorServerMessage::AskFile(file)));
                        assert(views(actions@) == ask_notes(
                            dag.provided(),
                            &self.store,
                            i as nat,
                        ).push(ActionView::Tell(ServerMessageView::AskFile(file))));
                    }
                    i += 1;
                }
                let ghost seeded = self.data;
                let ghost asked = views(actions@);
                let assignments = self.data.settle(now, &mut actions);
                let step = Step { actions, flow: Flow::GoOn, skipped: Vec::new(), assignments };
                proof {
                    assert forall|i: int| 0 <= i < dag.execs().len() implies seeded.status@[(
                    #[trigger] dag.execs()[i]).uuid] == if crate::scheduler::unready(
                        dag.execs()[i].needs(),
                        seeded.ready_files(),
                    ) == 0 {
                        ExecutionState::Ready
                    } else {
                        ExecutionState::Waiting
                    } by {
                        crate::scheduler::lemma_unready_none(dag.execs()[i].needs());
                        crate::finish::lemma_unready_fewer(
                            dag.execs()[i].needs(),
                            Set::empty(),
                            seeded.ready_files(),
                        );
                    }
                    assert(old(self).data.seeded_to(&dag, &callbacks, &old(self).store, &seeded));
                }
                step
            },
        }
    }
}

impl Executor {
    /// Whether `new` and `step` are what the file `file`, announced with
    /// the key `key` and sent as the chunks `stream`, makes of `self`.
    /// The content is kept in the store. Where its digest is the
    /// announced key, the file is taken as the scheduler says, and the
    /// state is brought to rest. Else the evaluation is given up: the
    /// client is told, and the loop ends.
    pub open spec fn provided_to(
        &self,
        file: FileUuid,
        key: FileKey,
        stream: Seq<Vec<u8>>,
        now: u64,
        new: &Executor,
        step: Step,
    ) -> bool {
        let digest = blake2s(concat(stream));
        &&& new.store.holds(digest)
        &&& blake2s(new.store.content(digest)) == digest
        &&& !self.store.holds(digest) ==> new.store.content(digest) == concat(stream)
        &&& forall|other: FileKey| other != digest ==> new.store.holds(other) == self.store.holds(other)
        &&& forall|other: FileKey|
            self.store.holds(other) ==> new.store.content(other) == self.store.content(other)
        &&& step.skipped@.len() == 0
        &&& if digest == key {
            &&& step.flow == Flow::GoOn
            &&& exists|supplied: ExecutorData, taken: bool| #[trigger]
                self.data.supplied_to(file, key, &supplied, taken) && supplied.wf()
                    && supplied.settled_to(
                    now,
                    &new.data,
                    step.assignments@,
                    views(step.actions@),
                )
        } else {
            &&& step.flow == Flow::Stop
            &&& self.data.aborted_to(&new.data)
            &&& step.assignments@.len() == 0
            &&& views(step.actions@) == seq![
                ActionView::Tell(ServerMessageView::Error(mismatch_text())),
            ]
        }
    }

    /// Whether `new` and `step` are what came from the client, with the
    /// chunks `stream` that followed it, makes of `self` at the time
    /// `now`.
    ///
    /// A request to evaluate starts an evaluation, and a file that the
    /// client sends is taken, as said above. A request for a file is
    /// answered by the announcement of the file and its content; where
    /// the store does not hold the content, the evaluation is given up:
    /// the client is told, and the loop ends. A
    /// request for the status is answered by the status. A request to
    /// stop, and a closed channel, end the loop. Bytes that are no
    /// message end the evaluation: the client is told, and the loop
    /// ends.
    pub open spec fn client_step(
        &self,
        received: Received<ExecutorClientMessage>,
        stream: Seq<Vec<u8>>,
        now: u64,
        new: &Executor,
        step: Step,
    ) -> bool {
        match received {
            Received::Message(ExecutorClientMessage::Evaluate { dag, callbacks }) => self.evaluated_to(
                &dag,
                &callbacks,
                now,
                new,
                step,
            ),
            Received::Message(ExecutorClientMessage::ProvideFile(file, key)) => self.provided_to(
                file,
                key,
                stream,
                now,
                new,
                step,
            ),
            Received::Message(ExecutorClientMessage::AskFile(file, key, success)) => {
                &&& new.store == self.store
                &&& step.skipped@.len() == 0
                &&& step.assignments@.len() == 0
                &&& if self.store.holds(key) {
                    &&& new.data == self.data
                    &&& step.flow == Flow::GoOn
                    &&& views(step.actions@) == seq![
                        ActionView::Tell(ServerMessageView::ProvideFile(file, success)),
                        ActionView::Stream(key),
                    ]
                } else {
                    &&& self.data.aborted_to(&new.data)
                    &&& step.flow == Flow::Stop
                    &&& views(step.actions@) == seq![
                        ActionView::Tell(ServerMessageView::Error(missing_text())),
                    ]
                }
            },
            Received::Message(ExecutorClientMessage::Status) => *new == *self && step.flow
                == Flow::GoOn && step.skipped@.len() == 0 && step.assignments@.len() == 0 && views(
                step.actions@,
            ) == seq![ActionView::Tell(ServerMessageView::Status(self.data.snapshot(now)))],
            Received::Message(ExecutorClientMessage::Stop) => *new == *self && step.flow
                == Flow::Stop && step.actions@.len() == 0 && step.skipped@.len() == 0
                && step.assignments@.len() == 0,
            Received::Closed => *new == *self && step.flow == Flow::Stop && step.actions@.len() == 0
                && step.skipped@.len() == 0 && step.assignments@.len() == 0,
            Received::Garbled => new.store == self.store && self.data.aborted_to(&new.data)
                && step.flow == Flow::Stop && step.skipped@.len() == 0 && step.assignments@.len()
                == 0 && views(step.actions@) == seq![
                ActionView::Tell(ServerMessageView::Error(garbled_text())),
            ],
        }
    }

    /// Takes a file that the client sends.
    fn on_provide_file(&mut self, file: FileUuid, key: FileKey, stream: &Vec<Vec<u8>>, now: u64) -> (step:
        Step)
        requires
            old(self).data.wf(),
        ensures
            final(self).data.wf(),
            old(self).provided_to(file, key, stream@, now, final(self), step),
    {
        let content = assemble(stream);
        let digest = self.store.insert(content);
        let mut actions: Vec<ExecutorAction> = Vec::new();
        if digest.hi == key.hi && digest.lo == key.lo {
            let taken = self.data.file_ready(file, key);
            let ghost supplied = self.data;
            let assignments = self.data.settle(now, &mut actions);
            let step = Step { actions, flow: Flow::GoOn, skipped: Vec::new(), assignments };
            proof {
                assert(views(step.actions@).skip(0) == views(step.actions@));
                assert(old(self).data.supplied_to(file, key, &supplied, taken));
            }
            step
        } else {
            self.data.abort();
            actions.push(
                ExecutorAction::Tell(
                    ExecutorServerMessage::Error(
                        String::from_str("the content of a file does not have the announced key"),
                    ),
                ),
            );
            assert(views(actions@) == seq![
                ActionView::Tell(ServerMessageView::Error(mismatch_text())),
            ]);
            Step { actions, flow: Flow::Stop, skipped: Vec::new(), assignments: Vec::new() }
        }
    }

    /// Takes what came from the client, with the chunks `stream` that
    /// followed it, at the time `now`, and says what is to be done.
    pub fn evaluate(
        &mut self,
        received: Received<ExecutorClientMessage>,
        stream: &Vec<Vec<u8>>,
        now: u64,
    ) -> (step: Step)
        requires
            old(self).data.wf(),
        ensures
            final(self).data.wf(),
            old(self).client_step(received, stream@, now, final(self), step),
    {
        match received {
            Received::Message(ExecutorClientMessage::Evaluate { dag, callbacks }) => {
                self.on_evaluate(dag, callbacks, now)
            },
            Received::Message(ExecutorClientMessage::ProvideFile(file, key)) => {
                self.on_provide_file(file, key, stream, now)
            },
            Received::Message(ExecutorClientMessage::AskFile(file, key, success)) => {
                let mut actions: Vec<ExecutorAction> = Vec::new();
                if self.store.contains(key) {
                    actions.push(
                        ExecutorAction::Tell(ExecutorServerMessage::ProvideFile(file, success)),
                    );
                    actions.push(ExecutorAction::Stream(key));
                    assert(views(actions@) == seq![
                        ActionView::Tell(ServerMessageView::ProvideFile(file, success)),
                        ActionView::Stream(key),
                    ]);
                    Step { actions, flow: Flow::GoOn, skipped: Vec::new(), assignments: Vec::new() }
                } else {
                    self.data.abort();
                    actions.push(
                        ExecutorAction::Tell(
                            ExecutorServerMessage::Error(
                                String::from_str("the content of a file is not in the store"),
                            ),
                        ),
                    );
                    assert(views(actions@) == seq![
                        ActionView::Tell(ServerMessageView::Error(missing_text())),
                    ]);
                    Step { actions, flow: Flow::Stop, skipped: Vec::new(), assignments: Vec::new() }
                }
            },
            Received::Message(ExecutorClientMessage::Status) => {
                let mut actions: Vec<ExecutorAction> = Vec::new();
                actions.push(
                    ExecutorAction::Tell(ExecutorServerMessage::Status(self.data.status_at(now))),
                );
                assert(views(actions@) == seq![
                    ActionView::Tell(ServerMessageView::Status(self.data.snapshot(now))),
                ]);
                Step { actions, flow: Flow::GoOn, skipped: Vec::new(), assignments: Vec::new() }
            },
            Received::Message(ExecutorClientMessage::Stop) => Step {
                actions: Vec::new(),
                flow: Flow::Stop,
                skipped: Vec::new(),
                assignments: Vec::new(),
            },
            Received::Closed => Step {
                actions: Vec::new(),
                flow: Flow::Stop,
                skipped: Vec::new(),
                assignments: Vec::new(),
            },
            Received::Garbled => {
                self.data.abort();
                let mut actions: Vec<ExecutorAction> = Vec::new();
                actions.push(
                    ExecutorAction::Tell(
                        ExecutorServerMessage::Error(String::from_str("a message could not be read")),
                    ),
                );
                assert(views(actions@) == seq![
                    ActionView::Tell(ServerMessageView::Error(garbled_text())),
                ]);
                Step { actions, flow: Flow::Stop, skipped: Vec::new(), assignments: Vec::new() }
            },
        }
    }
}

} // verus!
