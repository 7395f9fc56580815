//! The worker: what it does with a job, and with what the sandbox
//! gives.

use crate::cache::{cached_at, fingerprint, fingerprint_of, Cache, CachedResult};
use crate::dag::{Execution, FileKey, WorkerUuid};
use crate::executor::Flow;
use crate::proto::{
    ExecutionResourcesUsage, ExecutionResult, ExecutionStatus, Received, ResultView, StatusView,
    Work, WorkerClientMessage, WorkerOutput, WorkerServerMessage,
};
use crate::sandbox::SandboxResult;
use crate::store::{blake2s, FileStore};
use vstd::prelude::*;
use vstd::string::StringExecFns;

verus! {

/// Whether more than `limit` milliseconds were used, of which `used`
/// gives the microseconds, where a limit is set.
pub open spec fn time_is_over(limit: Option<u64>, used: u64) -> bool {
    limit is Some && used > limit.unwrap() * 1000
}

/// How the process of `execution` ended, given that it ran, ended with
/// `exit_status`, was or was not stopped by `signal`, named `name`, and
/// used `resources`: a limit that it went over, taking first the time
/// in user space, then that in kernel space, that on the clock, and the
/// memory; else the signal; else the status where it is not zero; else
/// success. The limits on time count in milliseconds, what was used in
/// microseconds.
pub open spec fn status_of(
    execution: &Execution,
    exit_status: u32,
    signal: Option<u32>,
    name: Seq<char>,
    resources: ExecutionResourcesUsage,
) -> StatusView {
    let limits = execution.limits;
    if time_is_over(limits.cpu_time, resources.cpu_time) {
        StatusView::TimeLimitExceeded
    } else if time_is_over(limits.sys_time, resources.sys_time) {
        StatusView::SysTimeLimitExceeded
    } else if time_is_over(limits.wall_time, resources.wall_time) {
        StatusView::WallTimeLimitExceeded
    } else if limits.memory is Some && resources.memory > limits.memory.unwrap() {
        StatusView::MemoryLimitExceeded
    } else if signal is Some {
        StatusView::Signal(signal.unwrap(), name)
    } else if exit_status != 0 {
        StatusView::ReturnCode(exit_status)
    } else {
        StatusView::Success
    }
}

/// The outcome of `execution` as the sandbox gave it: an error of the
/// sandbox where the process could not be run, else how the process
/// ended and what it used.
pub open spec fn outcome_of(execution: &Execution, result: SandboxResult, name: Seq<char>) -> ResultView {
    match result {
        SandboxResult::Failed { error } => ResultView {
            status: StatusView::InternalError(error@),
            resources: None,
        },
        SandboxResult::Success { exit_status, signal, resources, was_killed } => ResultView {
            status: status_of(execution, exit_status, signal, name, resources),
            resources: Some(resources),
        },
    }
}

/// The name of the signal `signal`, for the common ones.
pub open spec fn signal_text(signal: u32) -> Seq<char> {
    if signal == 1 {
        "SIGHUP"@
    }     else if signal == 2 {
        "SIGINT"@
    }     else if signal == 3 {
        "SIGQUIT"@
    }     else if signal == 4 {
        "SIGILL"@
    }     else if signal == 6 {
        "SIGABRT"@
    }     else if signal == 7 {
        "SIGBUS"@
    }     else if signal == 8 {
        "SIGFPE"@
    }     else if signal == 9 {
        "SIGKILL"@
    }     else if signal == 11 {
        "SIGSEGV"@
    }     else if signal == 13 {
        "SIGPIPE"@
    }     else if signal == 14 {
        "SIGALRM"@
    }     else if signal == 15 {
        "SIGTERM"@
    }     else if signal == 24 {
        "SIGXCPU"@
    }     else if signal == 25 {
        "SIGXFSZ"@
    } else {
        "unknown signal"@
    }
}

/// The name of the signal `signal`, for the common ones.
pub fn signal_name(signal: u32) -> (name: String)
    ensures
        name@ == signal_text(signal),
{
    if signal == 1 {
        String::from_str("SIGHUP")
    }     else if signal == 2 {
        String::from_str("SIGINT")
    }     else if signal == 3 {
        String::from_str("SIGQUIT")
    }     else if signal == 4 {
        String::from_str("SIGILL")
    }     else if signal == 6 {
        String::from_str("SIGABRT")
    }     else if signal == 7 {
        String::from_str("SIGBUS")
    }     else if signal == 8 {
        String::from_str("SIGFPE")
    }     else if signal == 9 {
        String::from_str("SIGKILL")
    }     else if signal == 11 {
        String::from_str("SIGSEGV")
    }     else if signal == 13 {
        String::from_str("SIGPIPE")
    }     else if signal == 14 {
        String::from_str("SIGALRM")
    }     else if signal == 15 {
        String::from_str("SIGTERM")
    }     else if signal == 24 {
        String::from_str("SIGXCPU")
    }     else if signal == 25 {
        String::from_str("SIGXFSZ")
    } else {
        String::from_str("unknown signal")
    }
}

/// The name of the signal that stopped the process of which `result`
/// tells; empty where none did.
pub open spec fn stop_text(result: SandboxResult) -> Seq<char> {
    match result {
        SandboxResult::Success { exit_status, signal, resources, was_killed } => match signal {
            Some(number) => signal_text(number),
            None => Seq::empty(),
        },
        SandboxResult::Failed { error } => Seq::empty(),
    }
}

/// The name of the signal that stopped the process of which `result`
/// tells; empty where none did.
pub fn stop_name(result: &SandboxResult) -> (name: String)
    ensures
        name@ == stop_text(*result),
{
    match result {
        SandboxResult::Success { exit_status, signal, resources, was_killed } => match signal {
            Some(number) => signal_name(*number),
            None => String::new(),
        },
        SandboxResult::Failed { error } => String::new(),
    }
}

/// Whether more than `limit` milliseconds were used, where a limit is
/// set.
fn over_time(limit: Option<u64>, used: u64) -> (over: bool)
    ensures
        over == time_is_over(limit, used),
{
    match limit {
        Some(limit) => used as u128 > limit as u128 * 1000,
        None => false,
    }
}

/// The outcome of `execution` as the sandbox gave it, with `name` the
/// name of the signal that stopped the process, if one did.
pub fn execution_result(execution: &Execution, result: SandboxResult, name: String) -> (outcome:
    ExecutionResult)
    ensures
        outcome@ == outcome_of(execution, result, name@),
{
    match result {
        SandboxResult::Failed { error } => ExecutionResult {
            status: ExecutionStatus::InternalError(error),
            resources: None,
        },
        SandboxResult::Success { exit_status, signal, resources, was_killed } => {
            let limits = &execution.limits;
            let over_memory = match limits.memory {
                Some(limit) => resources.memory > limit,
                None => false,
            };
            let status = if over_time(limits.cpu_time, resources.cpu_time) {
                ExecutionStatus::TimeLimitExceeded
            } else if over_time(limits.sys_time, resources.sys_time) {
                ExecutionStatus::SysTimeLimitExceeded
            } else if over_time(limits.wall_time, resources.wall_time) {
                ExecutionStatus::WallTimeLimitExceeded
            } else if over_memory {
                ExecutionStatus::MemoryLimitExceeded
            } else {
                match signal {
                    Some(number) => ExecutionStatus::Signal(number, name),
                    None => if exit_status != 0 {
                        ExecutionStatus::ReturnCode(exit_status)
                    } else {
                        ExecutionStatus::Success
                    },
                }
            };
            ExecutionResult { status, resources: Some(resources) }
        },
    }
}

/// The paths under which a worker names the products of `execution`: the
/// standard output and error by their names, the outputs by their paths.
pub open spec fn product_paths(execution: &Execution) -> Seq<Seq<char>> {
    (if execution.stdout is Some {
        seq!["stdout"@]
    } else {
        Seq::empty()
    }) + (if execution.stderr is Some {
        seq!["stderr"@]
    } else {
        Seq::empty()
    }) + Seq::new(execution.outputs@.len(), |i: int| execution.outputs@[i].path@)
}

/// The paths under which a worker names the products of `execution`.
pub fn name_products(execution: &Execution) -> (paths: Vec<String>)
    ensures
        crate::sandbox::texts(paths@) == product_paths(execution),
        paths@.len() == execution.makes().len(),
{
    let mut paths: Vec<String> = Vec::new();
    if execution.stdout.is_some() {
        paths.push(String::from_str("stdout"));
    }
    if execution.stderr.is_some() {
        paths.push(String::from_str("stderr"));
    }
    let ghost head = crate::sandbox::texts(paths@);
    let ghost tail = Seq::new(execution.outputs@.len(), |i: int| execution.outputs@[i].path@);
    let mut i: usize = 0;
    assert(crate::sandbox::texts(paths@) =~= head + tail.take(0));
    while i < execution.outputs.len()
        invariant
            i <= execution.outputs@.len(),
            tail == Seq::new(execution.outputs@.len(), |i: int| execution.outputs@[i].path@),
            crate::sandbox::texts(paths@) == head + tail.take(i as int),
            paths@.len() == head.len() + i,
        decreases execution.outputs@.len() - i,
    {
        let path = execution.outputs[i].path.clone();
        let ghost before = crate::sandbox::texts(paths@);
        paths.push(path);
        assert(crate::sandbox::texts(paths@) =~= before.push(execution.outputs@[i as int].path@));
        assert(tail.take(i + 1) =~= tail.take(i as int).push(execution.outputs@[i as int].path@));
        i += 1;
    }
    assert(tail.take(i as int) == tail);
    paths
}

/// Whether `outputs` names each product of `execution`, in order, with
/// the key at the same place in `keys`.
pub open spec fn reports(execution: &Execution, keys: Seq<FileKey>, outputs: Seq<WorkerOutput>) -> bool {
    &&& outputs.len() == execution.makes().len()
    &&& keys.len() == outputs.len()
    &&& forall|i: int|
        0 <= i < outputs.len() ==> (#[trigger] outputs[i]).file == execution.makes()[i]
            && outputs[i].key == keys[i] && outputs[i].path@ == product_paths(execution)[i]
}

/// The report of the products of `execution` with the keys `keys`.
pub(crate) fn report_products(execution: &Execution, keys: &Vec<FileKey>) -> (outputs: Vec<WorkerOutput>)
    requires
        keys@.len() == execution.makes().len(),
    ensures
        reports(execution, keys@, outputs@),
{
    let made = execution.products();
    let mut paths = name_products(execution);
    let ghost names = crate::sandbox::texts(paths@);
    let mut outputs: Vec<WorkerOutput> = Vec::new();
    let mut i: usize = made.len();
    let mut reversed: Vec<WorkerOutput> = Vec::new();
    while i > 0
        invariant
            i <= made@.len(),
            made@ == execution.makes(),
            keys@.len() == made@.len(),
            names == product_paths(execution),
            names.len() == made@.len(),
            paths@.len() == i,
            forall|k: int| 0 <= k < i ==> (#[trigger] paths@[k])@ == names[k],
            reversed@.len() == made@.len() - i,
            forall|k: int|
                0 <= k < reversed@.len() ==> (#[trigger] reversed@[k]).file == made@[made@.len() - 1
                    - k] && reversed@[k].key == keys@[made@.len() - 1 - k] && reversed@[k].path@
                    == names[made@.len() - 1 - k],
        decreases i,
    {
        let path = paths.pop().unwrap();
        i -= 1;
        reversed.push(WorkerOutput { path, file: made[i], key: keys[i] });
    }
    while reversed.len() > 0
        invariant
            made@ == execution.makes(),
            keys@.len() == made@.len(),
            names == product_paths(execution),
            outputs@.len() + reversed@.len() == made@.len(),
            forall|k: int|
                0 <= k < reversed@.len() ==> (#[trigger] reversed@[k]).file == made@[made@.len() - 1
                    - k] && reversed@[k].key == keys@[made@.len() - 1 - k] && reversed@[k].path@
                    == names[made@.len() - 1 - k],
            forall|k: int|
                0 <= k < outputs@.len() ==> (#[trigger] outputs@[k]).file == made@[k]
                    && outputs@[k].key == keys@[k] && outputs@[k].path@ == names[k],
        decreases reversed@.len(),
    {
        let output = reversed.pop().unwrap();
        outputs.push(output);
    }
    outputs
}

/// Whether the tag `tag` is one of `bypass`: the results of its
/// executions are not taken from the cache.
pub open spec fn bypassed(bypass: Seq<String>, tag: Option<String>) -> bool {
    match tag {
        Some(tag) => has_tag(bypass, tag@),
        None => false,
    }
}

/// Whether `tag` is one of the tags `tags`.
pub open spec fn has_tag(tags: Seq<String>, tag: Seq<char>) -> bool {
    exists|i: int| 0 <= i < tags.len() && (#[trigger] tags[i])@ == tag
}

/// Whether `tag` is one of the tags `tags`.
fn find_tag(tags: &Vec<String>, tag: &String) -> (yes: bool)
    ensures
        yes == has_tag(tags@, tag@),
{
    let mut i: usize = 0;
    while i < tags.len()
        invariant
            i <= tags@.len(),
            forall|k: int| 0 <= k < i ==> (#[trigger] tags@[k])@ != tag@,
        decreases tags@.len() - i,
    {
        if tags[i] == *tag {
            assert(tags@[i as int]@ == tag@);
            return true;
        }
        i += 1;
    }
    false
}

/// Whether the tag `tag` is one of `bypass`.
pub fn is_bypassed(bypass: &Vec<String>, tag: &Option<String>) -> (yes: bool)
    ensures
        yes == bypassed(bypass@, *tag),
{
    match tag {
        Some(name) => find_tag(bypass, name),
        None => false,
    }
}

/// Where a worker stands.
#[derive(Clone, Copy, Debug, PartialEq, Eq, Structural)]
pub enum WorkerState {
    /// It has not said anything yet.
    Connecting,
    /// It asked for work.
    Waiting,
    /// It runs a job.
    Running,
    /// It is gone.
    Disconnected,
}

/// Something that a worker wants done.
#[derive(Debug)]
pub enum WorkerAction {
    /// Send a message to the executor.
    Send(WorkerClientMessage),
    /// Bring the files of the job into a sandbox, run it, and come back
    /// with what it gave.
    Run,
}

/// What a worker did on an event.
#[derive(Debug)]
pub struct WorkerStep {
    /// What is to be done, in order.
    pub actions: Vec<WorkerAction>,
    /// Whether the loop goes on.
    pub flow: Flow,
}

/// A worker.
#[derive(Debug)]
pub struct Worker {
    /// The identifier of the worker.
    pub uuid: WorkerUuid,
    /// The name that it gives.
    pub name: String,
    /// Where it stands.
    pub state: WorkerState,
    /// The job that it runs.
    pub job: Option<Work>,
}

impl Worker {
    /// A worker that has not said anything yet.
    pub fn new(uuid: WorkerUuid, name: String) -> (worker: Worker)
        ensures
            worker.uuid == uuid,
            worker.name == name,
            worker.state == WorkerState::Connecting,
            worker.job is None,
    {
        Worker { uuid, name, state: WorkerState::Connecting, job: None }
    }

    /// Asks for work for the first time. A worker that already did,
    /// or is gone, does nothing.
    pub fn connect(&mut self) -> (step: WorkerStep)
        ensures
            final(self).uuid == old(self).uuid,
            final(self).name == old(self).name,
            final(self).job == old(self).job,
            step.flow == Flow::GoOn,
            old(self).state == WorkerState::Connecting ==> final(self).state == WorkerState::Waiting
                && step.actions@ == seq![WorkerAction::Send(WorkerClientMessage::GetWork)],
            old(self).state != WorkerState::Connecting ==> final(self).state == old(self).state
                && step.actions@.len() == 0,
    {
        let mut actions: Vec<WorkerAction> = Vec::new();
        match self.state {
            WorkerState::Connecting => {
                self.state = WorkerState::Waiting;
                actions.push(WorkerAction::Send(WorkerClientMessage::GetWork));
                assert(actions@ == seq![WorkerAction::Send(WorkerClientMessage::GetWork)]);
            },
            _ => {},
        }
        WorkerStep { actions, flow: Flow::GoOn }
    }

    /// Whether the cache `cache` has, for the job `work`, a result that
    /// may be given again: the tag of the execution is not bypassed, and
    /// a result with one key for each product lies under the
    /// fingerprint of the execution.
    pub open spec fn replayable(work: &Work, cache: &Cache, bypass: Seq<String>) -> bool {
        &&& !bypassed(bypass, work.execution.tag)
        &&& cached_at(cache.entries@, fingerprint_of(&work.execution, work.dep_keys@)) matches Some(
            at,
        )
        &&& cache.entries@[at].result.outputs@.len() == work.execution.makes().len()
    }

    /// The result that `cache` has for the job `work`; meaningful where
    /// it has one.
    pub open spec fn replayed(work: &Work, cache: &Cache) -> CachedResult {
        cache.entries@[cached_at(
            cache.entries@,
            fingerprint_of(&work.execution, work.dep_keys@),
        ).unwrap()].result
    }

    /// Whether `new` and `step` are what came from the executor makes
    /// of `self`. A job for a worker that waits is answered from the
    /// cache where the cache has a result that may be given again: the
    /// worker reports the result and asks for work again, and no
    /// sandbox runs. Else the worker runs the job. A job for a worker
    /// that does not wait changes nothing. A closed channel, and bytes
    /// that are no message, end the loop: the worker is gone.
    pub open spec fn executor_step(
        &self,
        received: Received<WorkerServerMessage>,
        cache: &Cache,
        bypass: Seq<String>,
        new: &Worker,
        step: WorkerStep,
    ) -> bool {
        &&& new.uuid == self.uuid
        &&& new.name == self.name
        &&& match received {
            Received::Message(WorkerServerMessage::Work(work)) => {
                &&& step.flow == Flow::GoOn
                &&& if self.state != WorkerState::Waiting {
                    new.state == self.state && new.job == self.job && step.actions@.len() == 0
                } else if Worker::replayable(&work, cache, bypass) {
                    &&& new.state == WorkerState::Waiting
                    &&& new.job is None
                    &&& step.actions@.len() == 2
                    &&& step.actions@[0] matches WorkerAction::Send(
                        WorkerClientMessage::WorkerDone(result, outputs),
                    )
                    &&& result@ == Worker::replayed(&work, cache).result@
                    &&& reports(&work.execution, Worker::replayed(&work, cache).outputs@, outputs@)
                    &&& step.actions@[1] == WorkerAction::Send(WorkerClientMessage::GetWork)
                } else {
                    &&& new.state == WorkerState::Running
                    &&& new.job == Some(work)
                    &&& step.actions@ == seq![WorkerAction::Run]
                }
            },
            _ => {
                &&& step.flow == Flow::Stop
                &&& new.state == WorkerState::Disconnected
                &&& new.job == self.job
                &&& step.actions@.len() == 0
            },
        }
    }

    /// Takes what came from the executor, with `cache` the cache of
    /// results and `bypass` the tags for which it is not used, and says
    /// what is to be done.
    pub fn on_message(
        &mut self,
        received: Received<WorkerServerMessage>,
        cache: &Cache,
        bypass: &Vec<String>,
    ) -> (step: WorkerStep)
        ensures
            old(self).executor_step(received, cache, bypass@, final(self), step),
    {
        match received {
            Received::Message(WorkerServerMessage::Work(work)) => {
                let mut actions: Vec<WorkerAction> = Vec::new();
                match self.state {
                    WorkerState::Waiting => {
                        let found = if is_bypassed(bypass, &work.execution.tag) {
                            None
                        } else {
                            cache.get(fingerprint(&work.execution, &work.dep_keys))
                        };
                        let made = work.execution.products();
                        match found {
                            Some(cached) => {
                                if cached.outputs.len() == made.len() {
                                    let outputs = report_products(&work.execution, &cached.outputs);
                                    actions.push(
                                        WorkerAction::Send(
                                            WorkerClientMessage::WorkerDone(
                                                cached.result.duplicate(),
                                                outputs,
                                            ),
                                        ),
                                    );
                                    actions.push(WorkerAction::Send(WorkerClientMessage::GetWork));
                                    self.job = None;
                                    return WorkerStep { actions, flow: Flow::GoOn };
                                }
                            },
                            None => {},
                        }
                        self.state = WorkerState::Running;
                        self.job = Some(work);
                        actions.push(WorkerAction::Run);
                        assert(actions@ == seq![WorkerAction::Run]);
                    },
                    _ => {},
                }
                WorkerStep { actions, flow: Flow::GoOn }
            },
            _ => {
                self.state = WorkerState::Disconnected;
                WorkerStep { actions: Vec::new(), flow: Flow::Stop }
            },
        }
    }

    /// Whether `contents` has one content for each product of the job
    /// that the worker runs.
    pub open spec fn can_report(&self, contents: Seq<Vec<u8>>) -> bool {
        self.state == WorkerState::Running && self.job is Some && contents.len()
            == self.job.unwrap().execution.makes().len()
    }

    /// Whether `new`, `step`, the store and the cache are what the end
    /// of the sandbox makes of `self`, where `result` is what the
    /// sandbox gave, `name` the name of the signal that stopped the
    /// process, if one did, and `contents` the contents of the products
    /// of the execution, in their order. The contents are added to the
    /// store `store`, which keeps what it held; the worker reports the
    /// outcome and, for each product, the digest of its content; a
    /// result that is a success is kept in the cache under the
    /// fingerprint of the execution; and the worker asks for work
    /// again. A worker that does not run a job with as many products
    /// does nothing: the store and the cache stay as they are.
    pub open spec fn finished_to(
        &self,
        result: SandboxResult,
        name: Seq<char>,
        contents: Seq<Vec<u8>>,
        store: &FileStore,
        cache: &Cache,
        new: &Worker,
        new_store: &FileStore,
        new_cache: &Cache,
        step: WorkerStep,
    ) -> bool {
        &&& new.uuid == self.uuid
        &&& new.name == self.name
        &&& step.flow == Flow::GoOn
        &&& if self.can_report(contents) {
            let work = self.job.unwrap();
            let keys = Seq::new(contents.len(), |i: int| blake2s(contents[i]@));
            &&& new.state == WorkerState::Waiting
            &&& new.job is None
            &&& store.grown_to(keys, new_store)
            &&& step.actions@.len() == 2
            &&& step.actions@[0] matches WorkerAction::Send(
                WorkerClientMessage::WorkerDone(outcome, outputs),
            )
            &&& outcome@ == outcome_of(&work.execution, result, name)
            &&& reports(&work.execution, keys, outputs@)
            &&& step.actions@[1] == WorkerAction::Send(WorkerClientMessage::GetWork)
            &&& if outcome.succeeded() {
                &&& new_cache.entries@.len() == cache.entries@.len() + 1
                &&& new_cache.entries@.drop_last() == cache.entries@
                &&& new_cache.entries@.last().fingerprint == fingerprint_of(
                    &work.execution,
                    work.dep_keys@,
                )
                &&& new_cache.entries@.last().result.result@ == outcome@
                &&& new_cache.entries@.last().result.outputs@ == keys
            } else {
                new_cache.entries@ == cache.entries@
            }
        } else {
            new.state == self.state && new.job == self.job && step.actions@.len() == 0
                && *new_store == *store && new_cache.entries@ == cache.entries@
        }
    }

    /// Takes what the sandbox gave.
    pub fn on_sandbox_done(
        &mut self,
        result: SandboxResult,
        name: String,
        contents: Vec<Vec<u8>>,
        store: &mut FileStore,
        cache: &mut Cache,
    ) -> (step: WorkerStep)
        ensures
            old(self).finished_to(
                result,
                name@,
                contents@,
                old(store),
                old(cache),
                final(self),
                final(store),
                final(cache),
                step,
            ),
    {
        let mut actions: Vec<WorkerAction> = Vec::new();
        if self.state != WorkerState::Running {
            return WorkerStep { actions, flow: Flow::GoOn };
        }
        let work = match self.job.take() {
            Some(work) => work,
            None => {
                return WorkerStep { actions, flow: Flow::GoOn };
            },
        };
        let made = work.execution.products();
        if contents.len() != made.len() {
            self.job = Some(work);
            return WorkerStep { actions, flow: Flow::GoOn };
        }
        let ghost all = contents@;
        let ghost wanted = Seq::new(all.len(), |i: int| blake2s(all[i]@));
        let mut contents = contents;
        let mut reversed: Vec<FileKey> = Vec::new();
        while contents.len() > 0
            invariant
                contents@.len() + reversed@.len() == all.len(),
                contents@ == all.take(contents@.len() as int),
                wanted == Seq::new(all.len(), |i: int| blake2s(all[i]@)),
                forall|k: int|
                    0 <= k < reversed@.len() ==> #[trigger] reversed@[k] == wanted[all.len() - 1
                        - k],
                old(store).grown_to(reversed@, &*store),
            decreases contents@.len(),
        {
            let ghost before = contents@;
            let ghost kept = reversed@;
            let ghost held = *store;
            let content = contents.pop().unwrap();
            assert(content == all[before.len() - 1]);
            let key = store.insert(content);
            reversed.push(key);
            assert(contents@ == all.take(contents@.len() as int));
            proof {
                assert forall|k: int| 0 <= k < reversed@.len() implies store.holds(
                    #[trigger] reversed@[k],
                ) && blake2s(store.content(reversed@[k])) == reversed@[k] by {
                    if k < kept.len() {
                        assert(kept[k] == reversed@[k]);
                        assert(held.holds(kept[k]));
                    }
                }
                assert forall|other: FileKey| #[trigger] store.holds(other) implies old(
                    store,
                ).holds(other) || reversed@.contains(other) by {
                    if other == key {
                        assert(reversed@[kept.len() as int] == key);
                    } else {
                        assert(held.holds(other));
                        if kept.contains(other) {
                            let k = choose|k: int| 0 <= k < kept.len() && kept[k] == other;
                            assert(reversed@[k] == other);
                        }
                    }
                }
                assert forall|other: FileKey| #[trigger] old(store).holds(other) implies store.holds(
                    other,
                ) && store.content(other) == old(store).content(other) by {
                    assert(held.holds(other));
                }
            }
        }
        let ghost grown = reversed@;
        let mut keys: Vec<FileKey> = Vec::new();
        while reversed.len() > 0
            invariant
                keys@.len() + reversed@.len() == all.len(),
                wanted == Seq::new(all.len(), |i: int| blake2s(all[i]@)),
                forall|k: int|
                    0 <= k < reversed@.len() ==> #[trigger] reversed@[k] == wanted[all.len() - 1
                        - k],
                forall|k: int| 0 <= k < keys@.len() ==> #[trigger] keys@[k] == wanted[k],
            decreases reversed@.len(),
        {
            let ghost left = reversed@;
            let key = reversed.pop().unwrap();
            assert(key == left[left.len() - 1]);
            keys.push(key);
        }
        assert(keys@ =~= wanted);
        proof {
            assert(grown.len() == all.len());
            assert forall|i: int| 0 <= i < wanted.len() implies store.holds(#[trigger] wanted[i])
                && blake2s(store.content(wanted[i])) == wanted[i] by {
                assert(grown[all.len() - 1 - i] == wanted[i]);
            }
            assert forall|other: FileKey| #[trigger] store.holds(other) implies old(store).holds(
                other,
            ) || wanted.contains(other) by {
                if grown.contains(other) {
                    let k = choose|k: int| 0 <= k < grown.len() && grown[k] == other;
                    assert(wanted[all.len() - 1 - k] == other);
                }
            }
            assert(old(store).grown_to(wanted, &*store));
        }
        let outcome = execution_result(&work.execution, result, name);
        let outputs = report_products(&work.execution, &keys);
        if outcome.is_success() {
            let print = fingerprint(&work.execution, &work.dep_keys);
            let ghost before = cache.entries@;
            let entry = CachedResult { result: outcome.duplicate(), outputs: keys };
            cache.insert(print, entry);
            assert(cache.entries@.drop_last() == before);
        }
        self.state = WorkerState::Waiting;
        actions.push(WorkerAction::Send(WorkerClientMessage::WorkerDone(outcome, outputs)));
        actions.push(WorkerAction::Send(WorkerClientMessage::GetWork));
        assert(old(self).can_report(all));
        assert(old(self).job.unwrap() == work);
        WorkerStep { actions, flow: Flow::GoOn }
    }
}

} // verus!
