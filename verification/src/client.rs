//! The client of the executor: what it does on each message of the
//! executor.

use crate::dag::{
    ExecutionDAGData, ExecutionDAGWatchSet, ExecutionUuid, FileKey, FileUuid, ProvidedFile,
    WorkerUuid,
};
use crate::proto::{
    ExecutionResult, ExecutorClientMessage, ExecutorServerMessage, ExecutorStatus, FileOutcome,
    Received,
};
use crate::executor::Flow;
use crate::store::{assemble, blake2s, concat, key_of, FileStore};
use vstd::prelude::*;
use vstd::string::StringExecFns;

verus! {

/// The milliseconds between two requests for the status of the
/// executor.
pub const STATUS_POLL_INTERVAL_MS: u64 = 1000;

/// Where a file is to be written once it is there.
#[derive(Clone, Debug)]
pub struct WriteToCallback {
    /// The path of the file.
    pub dest: String,
    /// Whether the file is made executable.
    pub executable: bool,
    /// Whether the file is written although the execution that made it
    /// did not return zero.
    pub allow_failure: bool,
}

/// What the client wants done with a file.
#[derive(Clone, Debug)]
pub struct FileCallbacks {
    /// The file.
    pub file: FileUuid,
    /// Where to write it, if anywhere.
    pub write_to: Option<WriteToCallback>,
    /// How many bytes of its content a handler wants, if one waits.
    pub get_content: Option<usize>,
}

/// How many handlers wait for what happens to an execution.
#[derive(Clone, Copy, Debug, PartialEq, Eq, Structural)]
pub struct ExecutionCallbacks {
    /// The execution.
    pub execution: ExecutionUuid,
    /// The handlers that wait for the start.
    pub on_start: usize,
    /// The handlers that wait for the end.
    pub on_done: usize,
    /// The handlers that wait for the execution to be skipped.
    pub on_skip: usize,
}

/// What is to be done with a file that came.
#[derive(Debug)]
pub struct FileDelivery {
    /// The path to write the whole content to, if any.
    pub write_to: Option<String>,
    /// Whether the written file is made executable.
    pub make_executable: bool,
    /// The bytes to hand to the handler that waited for the content, if
    /// one did.
    pub content: Option<Vec<u8>>,
}

/// The first of `callbacks` that is about `file`, if any.
pub open spec fn callbacks_of(callbacks: Seq<FileCallbacks>, file: FileUuid) -> Option<int> {
    if exists|i: int| 0 <= i < callbacks.len() && (#[trigger] callbacks[i]).file == file {
        Some(first_about(callbacks, file))
    } else {
        None
    }
}

/// The place of the first of `callbacks` that is about `file`;
/// meaningful where there is one.
pub open spec fn first_about(callbacks: Seq<FileCallbacks>, file: FileUuid) -> int {
    choose|i: int|
        0 <= i < callbacks.len() && (#[trigger] callbacks[i]).file == file && forall|j: int|
            0 <= j < i ==> (#[trigger] callbacks[j]).file != file
}

/// Whether a file is written: a path is given, and the execution that
/// made the file returned zero or a failure is allowed.
pub open spec fn is_written(callbacks: FileCallbacks, success: bool) -> bool {
    callbacks.write_to matches Some(write_to) && (success || write_to.allow_failure)
}

/// The first `limit` bytes of `content`, or all of it where it is
/// shorter.
pub open spec fn prefix(content: Seq<u8>, limit: int) -> Seq<u8> {
    if limit <= 0 {
        Seq::empty()
    } else if content.len() <= limit {
        content
    } else {
        content.take(limit)
    }
}

/// The first `limit` bytes of `content`.
pub fn take_prefix(content: &Vec<u8>, limit: usize) -> (head: Vec<u8>)
    ensures
        head@ == prefix(content@, limit as int),
{
    let mut head: Vec<u8> = Vec::new();
    let mut i: usize = 0;
    while i < content.len() && i < limit
        invariant
            i <= content@.len(),
            i <= limit,
            head@ == content@.take(i as int),
        decreases content@.len() - i,
    {
        head.push(content[i]);
        assert(head@ == content@.take(i + 1));
        i += 1;
    }
    assert(content@.take(content@.len() as int) == content@);
    assert(content@.take(0) == Seq::<u8>::empty());
    head
}

/// The place of the first of `callbacks` that is about `file`.
fn find_callbacks(callbacks: &Vec<FileCallbacks>, file: FileUuid) -> (at: Option<usize>)
    ensures
        match at {
            Some(i) => callbacks_of(callbacks@, file) == Some(i as int) && i < callbacks@.len()
                && callbacks@[i as int].file == file,
            None => callbacks_of(callbacks@, file) is None,
        },
{
    let mut i: usize = 0;
    while i < callbacks.len()
        invariant
            i <= callbacks@.len(),
            forall|j: int| 0 <= j < i ==> (#[trigger] callbacks@[j]).file != file,
        decreases callbacks@.len() - i,
    {
        if callbacks[i].file == file {
            proof {
                let first = first_about(callbacks@, file);
                assert(callbacks@[i as int].file == file);
                if first < i {
                    assert(callbacks@[first].file != file);
                }
                if i < first {
                    assert(callbacks@[i as int].file != file);
                }
            }
            return Some(i);
        }
        i += 1;
    }
    None
}

/// Whether `plan` and `after` are what the content `content` of the
/// file `file`, made with or without success, makes of the callbacks
/// `before`. Where nothing is wanted of the file, nothing is done. Else
/// the content is written where a path is given and the execution that
/// made the file returned zero or a failure is allowed; the written
/// file is made executable where that is asked; and the handler that
/// waits for the content, if any, gets its first bytes and waits no
/// more.
pub open spec fn delivered(
    before: Seq<FileCallbacks>,
    file: FileUuid,
    success: bool,
    content: Seq<u8>,
    after: Seq<FileCallbacks>,
    plan: Option<FileDelivery>,
) -> bool {
    match callbacks_of(before, file) {
        None => plan is None && after == before,
        Some(i) => {
            &&& plan is Some
            &&& after.len() == before.len()
            &&& forall|j: int| 0 <= j < before.len() && j != i ==> after[j] == before[j]
            &&& after[i].file == file
            &&& after[i].write_to == before[i].write_to
            &&& after[i].get_content is None
            &&& plan.unwrap().write_to is Some == is_written(before[i], success)
            &&& is_written(before[i], success) ==> plan.unwrap().write_to.unwrap()@
                == before[i].write_to.unwrap().dest@
            &&& plan.unwrap().make_executable == (is_written(before[i], success)
                && before[i].write_to.unwrap().executable)
            &&& plan.unwrap().content is Some == before[i].get_content is Some
            &&& before[i].get_content is Some ==> plan.unwrap().content.unwrap()@ == prefix(
                content,
                before[i].get_content.unwrap() as int,
            )
        },
    }
}

/// Says what is to be done with the file `file`, whose content came in
/// the chunks `chunks`.
pub fn process_provided_file(
    file_callbacks: &mut Vec<FileCallbacks>,
    uuid: FileUuid,
    success: bool,
    chunks: &Vec<Vec<u8>>,
) -> (plan: Option<FileDelivery>)
    ensures
        delivered(old(file_callbacks)@, uuid, success, concat(chunks@), final(file_callbacks)@, plan),
{
    let at = match find_callbacks(file_callbacks, uuid) {
        Some(at) => at,
        None => {
            return None;
        },
    };
    let ghost before = old(file_callbacks)@;
    let wanted = file_callbacks.remove(at);
    assert(wanted == before[at as int]);
    let write_to = match &wanted.write_to {
        Some(write_to) => {
            if success || write_to.allow_failure {
                Some(write_to.dest.clone())
            } else {
                None
            }
        },
        None => None,
    };
    let make_executable = match &wanted.write_to {
        Some(write_to) => write_to.executable && (success || write_to.allow_failure),
        None => false,
    };
    let content = match wanted.get_content {
        Some(limit) => {
            let whole = assemble(chunks);
            Some(take_prefix(&whole, limit))
        },
        None => None,
    };
    let ghost kept = wanted;
    let left = FileCallbacks { file: wanted.file, write_to: wanted.write_to, get_content: None };
    let ghost now = left;
    file_callbacks.insert(at, left);
    assert(file_callbacks@ =~= before.update(at as int, now));
    let plan = FileDelivery { write_to, make_executable, content };
    assert(plan.write_to is Some == is_written(kept, success));
    assert(plan.content is Some == kept.get_content is Some);
    Some(plan)
}

/// A file that the client supplies, and its key.
#[derive(Clone, Copy, Debug, PartialEq, Eq, Structural)]
pub struct ProvidedKey {
    /// The file.
    pub file: FileUuid,
    /// The digest of its content.
    pub key: FileKey,
}

/// Something that the client wants done.
#[derive(Debug)]
pub enum ClientAction {
    /// Send a message to the executor.
    Send(ExecutorClientMessage),
    /// Send the content of a supplied file to the executor, then the
    /// mark that ends a stream.
    StreamProvided(FileUuid),
    /// Call the handlers that waited for the start of an execution.
    FireStart {
        /// The execution.
        execution: ExecutionUuid,
        /// The worker that runs it.
        worker: WorkerUuid,
        /// How many handlers waited.
        callbacks: usize,
    },
    /// Call the handlers that waited for the end of an execution.
    FireDone {
        /// The execution.
        execution: ExecutionUuid,
        /// How it ended.
        result: ExecutionResult,
        /// How many handlers waited.
        callbacks: usize,
    },
    /// Call the handlers that waited for an execution to be skipped.
    FireSkip {
        /// The execution.
        execution: ExecutionUuid,
        /// How many handlers waited.
        callbacks: usize,
    },
    /// Do with the content of a file what the client wants.
    Deliver {
        /// The file.
        file: FileUuid,
        /// The key under which the content lies in the store; `None`
        /// where the content is the stream that followed the message
        /// or, at the start, the content of the supplied file.
        key: Option<FileKey>,
        /// What to do with the content.
        plan: FileDelivery,
    },
    /// Hand the status of the executor to the one who asked for it.
    ReportStatus(ExecutorStatus),
    /// Report that the evaluation failed, with what the executor said.
    Failed(String),
}

/// What the client did on a message.
#[derive(Debug)]
pub struct ClientStep {
    /// What is to be done, in order.
    pub actions: Vec<ClientAction>,
    /// Whether the loop goes on.
    pub flow: Flow,
}

/// The client: sends a graph for evaluation, supplies files, and takes
/// what the executor tells.
#[derive(Debug)]
pub struct ExecutorClient {
    /// The handlers that wait for executions.
    pub execution_callbacks: Vec<ExecutionCallbacks>,
    /// What is wanted of files.
    pub file_callbacks: Vec<FileCallbacks>,
    /// The files that the client supplies.
    pub provided_files: Vec<ProvidedKey>,
    /// How many files the executor still has to send; unknown until the
    /// executor says that the evaluation is over.
    pub missing_files: Option<usize>,
    /// The watched files as the executor listed them at the end of the
    /// evaluation, with their keys; empty until then.
    pub announced: Vec<FileOutcome>,
}

/// The kinds of handlers that wait for an execution.
#[derive(Clone, Copy, Debug, PartialEq, Eq, Structural)]
pub enum Event {
    /// The execution started.
    Start,
    /// The execution ended.
    Done,
    /// The execution was skipped.
    Skip,
}

impl ExecutionCallbacks {
    /// How many handlers wait for `event`.
    pub open spec fn waiting(self, event: Event) -> usize {
        match event {
            Event::Start => self.on_start,
            Event::Done => self.on_done,
            Event::Skip => self.on_skip,
        }
    }

    /// The handlers once those that waited for `event` were called.
    pub open spec fn drained(self, event: Event) -> ExecutionCallbacks {
        match event {
            Event::Start => ExecutionCallbacks { on_start: 0, ..self },
            Event::Done => ExecutionCallbacks { on_done: 0, ..self },
            Event::Skip => ExecutionCallbacks { on_skip: 0, ..self },
        }
    }
}

/// Whether the `i`-th of `callbacks` is the first about `execution`.
pub open spec fn is_first_for(
    callbacks: Seq<ExecutionCallbacks>,
    execution: ExecutionUuid,
    i: int,
) -> bool {
    &&& 0 <= i < callbacks.len()
    &&& callbacks[i].execution == execution
    &&& forall|j: int| 0 <= j < i ==> (#[trigger] callbacks[j]).execution != execution
}

/// Whether `count` and `after` are what `event`, happening to
/// `execution`, makes of the handlers `before`: the handlers of the
/// first entry about the execution that waited for the event are
/// called, `count` of them, and wait no more.
pub open spec fn fired(
    before: Seq<ExecutionCallbacks>,
    execution: ExecutionUuid,
    event: Event,
    after: Seq<ExecutionCallbacks>,
    count: usize,
) -> bool {
    if exists|i: int| is_first_for(before, execution, i) {
        let i = choose|i: int| is_first_for(before, execution, i);
        count == before[i].waiting(event) && after == before.update(i, before[i].drained(event))
    } else {
        count == 0 && after == before
    }
}

/// Calls off the handlers that wait for `event` to happen to
/// `execution`, and returns how many there were.
pub fn fire(callbacks: &mut Vec<ExecutionCallbacks>, execution: ExecutionUuid, event: Event) -> (count:
    usize)
    ensures
        fired(old(callbacks)@, execution, event, final(callbacks)@, count),
{
    let mut i: usize = 0;
    while i < callbacks.len()
        invariant
            i <= callbacks@.len(),
            callbacks@ == old(callbacks)@,
            forall|j: int| 0 <= j < i ==> (#[trigger] callbacks@[j]).execution != execution,
        decreases callbacks@.len() - i,
    {
        if callbacks[i].execution == execution {
            let ghost before = callbacks@;
            proof {
                assert(is_first_for(before, execution, i as int));
                let first = choose|k: int| is_first_for(before, execution, k);
                if first < i {
                    assert(before[first].execution != execution);
                }
                if i < first {
                    assert(before[i as int].execution != execution);
                }
            }
            let entry = callbacks[i];
            let (count, left) = match event {
                Event::Start => (entry.on_start, ExecutionCallbacks { on_start: 0, ..entry }),
                Event::Done => (entry.on_done, ExecutionCallbacks { on_done: 0, ..entry }),
                Event::Skip => (entry.on_skip, ExecutionCallbacks { on_skip: 0, ..entry }),
            };
            callbacks[i] = left;
            assert(callbacks@ == before.update(i as int, before[i as int].drained(event)));
            return count;
        }
        i += 1;
    }
    assert(!exists|k: int| is_first_for(callbacks@, execution, k)) by {
        if exists|k: int| is_first_for(callbacks@, execution, k) {
            let k = choose|k: int| is_first_for(callbacks@, execution, k);
            assert(callbacks@[k].execution != execution);
        }
    }
    0
}

/// How many handlers wait, in `callbacks`, for `event` to happen to
/// `execution`.
pub open spec fn waiting_for(
    callbacks: Seq<ExecutionCallbacks>,
    execution: ExecutionUuid,
    event: Event,
) -> usize {
    if exists|i: int| is_first_for(callbacks, execution, i) {
        callbacks[choose|i: int| is_first_for(callbacks, execution, i)].waiting(event)
    } else {
        0
    }
}

/// An event calls the handlers that wait for it, and leaves all the
/// others waiting: once it has happened, no handler waits for it, and
/// as many as before wait for any other event or execution. So no
/// handler is ever called twice.
pub proof fn handlers_wait_until_called(
    before: Seq<ExecutionCallbacks>,
    execution: ExecutionUuid,
    event: Event,
    after: Seq<ExecutionCallbacks>,
    count: usize,
    other: ExecutionUuid,
    another: Event,
)
    requires
        fired(before, execution, event, after, count),
    ensures
        count == waiting_for(before, execution, event),
        waiting_for(after, other, another) == if other == execution && another == event {
            0
        } else {
            waiting_for(before, other, another)
        },
{
    if exists|i: int| is_first_for(before, execution, i) {
        let i = choose|i: int| is_first_for(before, execution, i);
        assert forall|k: int| is_first_for(before, other, k) <==> is_first_for(after, other, k) by {
            if is_first_for(before, other, k) {
                assert forall|j: int| 0 <= j < k implies (#[trigger] after[j]).execution
                    != other by {
                    assert(before[j].execution != other);
                }
            }
            if is_first_for(after, other, k) {
                assert forall|j: int| 0 <= j < k implies (#[trigger] before[j]).execution
                    != other by {
                    assert(after[j].execution != other);
                }
            }
        }
        if exists|k: int| is_first_for(before, other, k) {
            let k = choose|k: int| is_first_for(before, other, k);
            assert(is_first_for(after, other, k));
            let l = choose|l: int| is_first_for(after, other, l);
            assert(is_first_for(before, other, l));
            if k < l {
                assert(before[k].execution != other);
            }
            if l < k {
                assert(before[l].execution != other);
            }
            if other == execution {
                if i < k {
                    assert(before[i].execution != other);
                }
                if k < i {
                    assert(before[k].execution != execution);
                }
            }
        } else {
            assert(!exists|k: int| is_first_for(after, other, k));
        }
    }
}

/// The key of the first of `provided` that is the file `file`, if any.
pub open spec fn provided_key(provided: Seq<ProvidedKey>, file: FileUuid) -> Option<FileKey>
    decreases provided.len(),
{
    if provided.len() == 0 {
        None
    } else if provided[0].file == file {
        Some(provided[0].key)
    } else {
        provided_key(provided.drop_first(), file)
    }
}

/// The key of the supplied file `file`.
fn find_provided(provided: &Vec<ProvidedKey>, file: FileUuid) -> (key: Option<FileKey>)
    ensures
        key == provided_key(provided@, file),
{
    let mut i: usize = 0;
    assert(provided@.skip(0) == provided@);
    while i < provided.len()
        invariant
            i <= provided@.len(),
            provided_key(provided@, file) == provided_key(provided@.skip(i as int), file),
        decreases provided@.len() - i,
    {
        assert(provided@.skip(i as int)[0] == provided@[i as int]);
        assert(provided@.skip(i as int).drop_first() == provided@.skip(i + 1));
        if provided[i].file == file {
            return Some(provided[i].key);
        }
        i += 1;
    }
    None
}

/// The key of the first of `announced` that is about the file `file`,
/// if any.
pub open spec fn announced_key(announced: Seq<FileOutcome>, file: FileUuid) -> Option<FileKey>
    decreases announced.len(),
{
    if announced.len() == 0 {
        None
    } else if announced[0].file == file {
        Some(announced[0].key)
    } else {
        announced_key(announced.drop_first(), file)
    }
}

/// The key with which the file `file` was listed.
fn find_announced(announced: &Vec<FileOutcome>, file: FileUuid) -> (key: Option<FileKey>)
    ensures
        key == announced_key(announced@, file),
{
    let mut i: usize = 0;
    assert(announced@.skip(0) == announced@);
    while i < announced.len()
        invariant
            i <= announced@.len(),
            announced_key(announced@, file) == announced_key(announced@.skip(i as int), file),
        decreases announced@.len() - i,
    {
        assert(announced@.skip(i as int)[0] == announced@[i as int]);
        assert(announced@.skip(i as int).drop_first() == announced@.skip(i + 1));
        if announced[i].file == file {
            return Some(announced[i].key);
        }
        i += 1;
    }
    None
}

/// How many of `outcomes` have a content that `held` does not hold.
pub open spec fn not_held(outcomes: Seq<FileOutcome>, held: &FileStore) -> nat
    decreases outcomes.len(),
{
    if outcomes.len() == 0 {
        0
    } else {
        not_held(outcomes.drop_last(), held) + if held.holds(outcomes.last().key) {
            0nat
        } else {
            1nat
        }
    }
}

/// Whether `after` and `actions` are what the file of `outcome` makes
/// of the callbacks `before` at the end of an evaluation: where `held`
/// holds the content, what the client wants is done with it; else the
/// executor is asked for the content.
pub open spec fn outcome_taken(
    before: Seq<FileCallbacks>,
    outcome: FileOutcome,
    held: &FileStore,
    after: Seq<FileCallbacks>,
    actions: Seq<ClientAction>,
) -> bool {
    if held.holds(outcome.key) {
        if callbacks_of(before, outcome.file) is Some {
            &&& actions.len() == 1
            &&& actions[0] matches ClientAction::Deliver { file, key, plan }
            &&& file == outcome.file
            &&& key == Some(outcome.key)
            &&& delivered(
                before,
                outcome.file,
                outcome.success,
                held.content(outcome.key),
                after,
                Some(plan),
            )
        } else {
            actions.len() == 0 && after == before
        }
    } else {
        after == before && actions == seq![
            ClientAction::Send(
                ExecutorClientMessage::AskFile(outcome.file, outcome.key, outcome.success),
            ),
        ]
    }
}

/// Marks the callbacks `between` and the number `k` as those at which
/// a list of actions is cut in two.
pub open spec fn cut_at(between: Seq<FileCallbacks>, k: int) -> bool {
    true
}

/// Whether `after` and `actions` are what the files of `outcomes`,
/// taken in order, make of the callbacks `before` at the end of an
/// evaluation: the last file is taken after all the others.
pub open spec fn outcomes_taken(
    before: Seq<FileCallbacks>,
    outcomes: Seq<FileOutcome>,
    held: &FileStore,
    after: Seq<FileCallbacks>,
    actions: Seq<ClientAction>,
) -> bool
    decreases outcomes.len(),
{
    if outcomes.len() == 0 {
        after == before && actions.len() == 0
    } else {
        exists|between: Seq<FileCallbacks>, k: int| #[trigger]
            cut_at(between, k) && 0 <= k <= actions.len() && outcomes_taken(
                before,
                outcomes.drop_last(),
                held,
                between,
                actions.take(k),
            ) && outcome_taken(between, outcomes.last(), held, after, actions.skip(k))
    }
}

impl ExecutorClient {
    /// Whether `self` supplies the files that `before` supplies.
    pub open spec fn supplies_as(&self, before: &ExecutorClient) -> bool {
        self.provided_files == before.provided_files
    }

    /// Whether the content that came as `stream` for the file `file` is
    /// refused: the executor listed the file with a key, and the digest
    /// of the content is not that key.
    pub open spec fn refuses(&self, file: FileUuid, stream: Seq<Vec<u8>>) -> bool {
        announced_key(self.announced@, file) is Some && announced_key(
            self.announced@,
            file,
        ).unwrap() != blake2s(concat(stream))
    }

    /// Whether `new` and `step` are what came from the executor, with
    /// the chunks `stream` that followed it, makes of `self`, with
    /// `held` the contents at hand.
    ///
    /// A request for a supplied file is answered by the announcement of
    /// the file and its content. The news of an execution calls the
    /// handlers that waited for it, once. A file that comes is
    /// delivered. The status is handed on. An error, and a closed
    /// channel, end the loop; so do bytes that are no message. When the
    /// evaluation is over, each watched file is delivered from the
    /// store, or asked for; the loop ends once no file is missing. A
    /// file that comes with a content whose digest is not the key with
    /// which the executor listed it is not delivered: the evaluation
    /// has failed, and the loop ends.
    pub open spec fn server_step(
        &self,
        received: Received<ExecutorServerMessage>,
        stream: Seq<Vec<u8>>,
        held: &FileStore,
        new: &ExecutorClient,
        step: ClientStep,
    ) -> bool {
        &&& new.supplies_as(self)
        &&& new.announced@ == match received {
            Received::Message(ExecutorServerMessage::Done(outcomes)) => outcomes@,
            _ => self.announced@,
        }
        &&& match received {
            Received::Message(ExecutorServerMessage::AskFile(file)) => {
                &&& new.execution_callbacks == self.execution_callbacks
                &&& new.file_callbacks == self.file_callbacks
                &&& new.missing_files == self.missing_files
                &&& step.flow == Flow::GoOn
                &&& match provided_key(self.provided_files@, file) {
                    Some(key) => step.actions@ == seq![
                        ClientAction::Send(ExecutorClientMessage::ProvideFile(file, key)),
                        ClientAction::StreamProvided(file),
                    ],
                    None => step.actions@.len() == 0,
                }
            },
            Received::Message(ExecutorServerMessage::NotifyStart(execution, worker)) => {
                &&& new.file_callbacks == self.file_callbacks
                &&& new.missing_files == self.missing_files
                &&& step.flow == Flow::GoOn
                &&& exists|count: usize| #[trigger]
                    fired(
                        self.execution_callbacks@,
                        execution,
                        Event::Start,
                        new.execution_callbacks@,
                        count,
                    ) && step.actions@ == if count > 0 {
                        seq![ClientAction::FireStart { execution, worker, callbacks: count }]
                    } else {
                        Seq::empty()
                    }
            },
            Received::Message(ExecutorServerMessage::NotifyDone(execution, result)) => {
                &&& new.file_callbacks == self.file_callbacks
                &&& new.missing_files == self.missing_files
                &&& step.flow == Flow::GoOn
                &&& exists|count: usize| #[trigger]
                    fired(
                        self.execution_callbacks@,
                        execution,
                        Event::Done,
                        new.execution_callbacks@,
                        count,
                    ) && step.actions@ == if count > 0 {
                        seq![ClientAction::FireDone { execution, result, callbacks: count }]
                    } else {
                        Seq::empty()
                    }
            },
            Received::Message(ExecutorServerMessage::NotifySkip(execution)) => {
                &&& new.file_callbacks == self.file_callbacks
                &&& new.missing_files == self.missing_files
                &&& step.flow == Flow::GoOn
                &&& exists|count: usize| #[trigger]
                    fired(
                        self.execution_callbacks@,
                        execution,
                        Event::Skip,
                        new.execution_callbacks@,
                        count,
                    ) && step.actions@ == if count > 0 {
                        seq![ClientAction::FireSkip { execution, callbacks: count }]
                    } else {
                        Seq::empty()
                    }
            },
            Received::Message(ExecutorServerMessage::ProvideFile(file, success)) => {
                &&& new.execution_callbacks == self.execution_callbacks
                &&& if self.refuses(file, stream) {
                    &&& new.file_callbacks == self.file_callbacks
                    &&& new.missing_files == self.missing_files
                    &&& step.flow == Flow::Stop
                    &&& step.actions@.len() == 1
                    &&& step.actions@[0] matches ClientAction::Failed(message)
                    &&& message@ == crate::executor::mismatch_text()
                } else {
                    &&& new.missing_files == match self.missing_files {
                        Some(missing) => Some(
                            if missing > 0 {
                                (missing - 1) as usize
                            } else {
                                0
                            },
                        ),
                        None => None,
                    }
                    &&& step.flow == if new.missing_files == Some(0usize) {
                        Flow::Stop
                    } else {
                        Flow::GoOn
                    }
                    &&& if callbacks_of(self.file_callbacks@, file) is Some {
                        &&& step.actions@.len() == 1
                        &&& step.actions@[0] matches ClientAction::Deliver { file: told, key, plan }
                        &&& told == file
                        &&& key is None
                        &&& delivered(
                            self.file_callbacks@,
                            file,
                            success,
                            concat(stream),
                            new.file_callbacks@,
                            Some(plan),
                        )
                    } else {
                        step.actions@.len() == 0 && new.file_callbacks@ == self.file_callbacks@
                    }
                }
            },
            Received::Message(ExecutorServerMessage::Status(status)) => {
                &&& new.execution_callbacks == self.execution_callbacks
                &&& new.file_callbacks == self.file_callbacks
                &&& new.missing_files == self.missing_files
                &&& step.flow == Flow::GoOn
                &&& step.actions@ == seq![ClientAction::ReportStatus(status)]
            },
            Received::Message(ExecutorServerMessage::Error(message)) => {
                &&& new.execution_callbacks == self.execution_callbacks
                &&& new.file_callbacks == self.file_callbacks
                &&& new.missing_files == self.missing_files
                &&& step.flow == Flow::Stop
                &&& step.actions@ == seq![ClientAction::Failed(message)]
            },
            Received::Message(ExecutorServerMessage::Done(outcomes)) => {
                &&& new.execution_callbacks == self.execution_callbacks
                &&& not_held(outcomes@, held) <= usize::MAX ==> new.missing_files == Some(
                    not_held(outcomes@, held) as usize,
                )
                &&& step.flow == if new.missing_files == Some(0usize) {
                    Flow::Stop
                } else {
                    Flow::GoOn
                }
                &&& outcomes_taken(
                    self.file_callbacks@,
                    outcomes@,
                    held,
                    new.file_callbacks@,
                    step.actions@,
                )
            },
            Received::Closed => {
                &&& new.execution_callbacks == self.execution_callbacks
                &&& new.file_callbacks == self.file_callbacks
                &&& new.missing_files == self.missing_files
                &&& step.flow == Flow::Stop
                &&& step.actions@.len() == 0
            },
            Received::Garbled => {
                &&& new.execution_callbacks == self.execution_callbacks
                &&& new.file_callbacks == self.file_callbacks
                &&& new.missing_files == self.missing_files
                &&& step.flow == Flow::Stop
                &&& step.actions@.len() == 1
                &&& step.actions@[0] matches ClientAction::Failed(message)
                &&& message@ == crate::executor::garbled_text()
            },
        }
    }
}

/// No more of `outcomes` miss their content than there are.
proof fn lemma_not_held(outcomes: Seq<FileOutcome>, held: &FileStore)
    ensures
        not_held(outcomes, held) <= outcomes.len(),
    decreases outcomes.len(),
{
    if outcomes.len() > 0 {
        lemma_not_held(outcomes.drop_last(), held);
    }
}

/// A copy of `bytes` as a stream of one chunk.
fn as_stream(bytes: &Vec<u8>) -> (chunks: Vec<Vec<u8>>)
    ensures
        concat(chunks@) == bytes@,
{
    let mut copy: Vec<u8> = Vec::new();
    let mut i: usize = 0;
    while i < bytes.len()
        invariant
            i <= bytes@.len(),
            copy@ == bytes@.take(i as int),
        decreases bytes@.len() - i,
    {
        copy.push(bytes[i]);
        assert(copy@ == bytes@.take(i + 1));
        i += 1;
    }
    assert(bytes@.take(i as int) == bytes@);
    let mut chunks: Vec<Vec<u8>> = Vec::new();
    chunks.push(copy);
    proof {
        reveal_with_fuel(concat, 2);
        assert(chunks@.drop_last() == Seq::<Vec<u8>>::empty());
        assert(concat(chunks@) == Seq::<u8>::empty() + copy@);
    }
    chunks
}

/// The content of the supplied file `file`: the one that it carries or,
/// for a file on the disk, the content `read` that was read there.
pub open spec fn supplied_content(file: ProvidedFile, read: Seq<u8>) -> Seq<u8> {
    match file {
        ProvidedFile::LocalFile { .. } => read,
        ProvidedFile::Content { content, .. } => content@,
    }
}

/// Whether `after` and `actions` are what the supplied file `file`,
/// with the content `content`, makes of the callbacks `before` at the
/// start of an evaluation: what the client wants of the file is done
/// with the content, as with a file that was made with success.
pub open spec fn supply_taken(
    before: Seq<FileCallbacks>,
    file: FileUuid,
    content: Seq<u8>,
    after: Seq<FileCallbacks>,
    actions: Seq<ClientAction>,
) -> bool {
    if callbacks_of(before, file) is Some {
        &&& actions.len() == 1
        &&& actions[0] matches ClientAction::Deliver { file: told, key, plan }
        &&& told == file
        &&& key is None
        &&& delivered(before, file, true, content, after, Some(plan))
    } else {
        actions.len() == 0 && after == before
    }
}

/// Whether `after` and `actions` are what the supplied files
/// `provided`, taken in order, make of the callbacks `before` at the
/// start of an evaluation, where `read` has, at the place of each file,
/// what was read of it on the disk: the last file is taken after all
/// the others.
pub open spec fn supplies_taken(
    before: Seq<FileCallbacks>,
    provided: Seq<ProvidedFile>,
    read: Seq<Vec<u8>>,
    after: Seq<FileCallbacks>,
    actions: Seq<ClientAction>,
) -> bool
    decreases provided.len(),
{
    if provided.len() == 0 {
        after == before && actions.len() == 0
    } else {
        exists|between: Seq<FileCallbacks>, k: int| #[trigger]
            cut_at(between, k) && 0 <= k <= actions.len() && supplies_taken(
                before,
                provided.drop_last(),
                read,
                between,
                actions.take(k),
            ) && supply_taken(
                between,
                provided.last().spec_uuid(),
                supplied_content(provided.last(), read[provided.len() - 1]@),
                after,
                actions.skip(k),
            )
    }
}

/// Does with the supplied file `file` what the client wants of it, where
/// `read` is what was read of it on the disk.
fn take_supply(
    callbacks: &mut Vec<FileCallbacks>,
    file: &ProvidedFile,
    read: &Vec<u8>,
    actions: &mut Vec<ClientAction>,
)
    ensures
        final(actions)@.len() >= old(actions)@.len(),
        final(actions)@.take(old(actions)@.len() as int) == old(actions)@,
        supply_taken(
            old(callbacks)@,
            file.spec_uuid(),
            supplied_content(*file, read@),
            final(callbacks)@,
            final(actions)@.skip(old(actions)@.len() as int),
        ),
{
    let ghost done = actions@;
    let ghost k = done.len() as int;
    let chunks = match file {
        ProvidedFile::LocalFile { .. } => as_stream(read),
        ProvidedFile::Content { content, .. } => as_stream(content),
    };
    let plan = process_provided_file(callbacks, file.uuid(), true, &chunks);
    match plan {
        Some(plan) => {
            actions.push(ClientAction::Deliver { file: file.uuid(), key: None, plan });
            assert(actions@.take(k) == done);
            assert(actions@.skip(k).len() == 1);
            assert(actions@.skip(k)[0] == actions@[k]);
        },
        None => {
            assert(actions@.take(k) == done);
            assert(actions@.skip(k).len() == 0);
        },
    }
}

/// Does with the file of `outcome` what the end of an evaluation asks
/// for, and says whether the executor was asked for the content.
fn take_outcome(
    callbacks: &mut Vec<FileCallbacks>,
    outcome: FileOutcome,
    held: &FileStore,
    actions: &mut Vec<ClientAction>,
) -> (asked: bool)
    ensures
        asked == !held.holds(outcome.key),
        final(actions)@.len() >= old(actions)@.len(),
        final(actions)@.take(old(actions)@.len() as int) == old(actions)@,
        outcome_taken(
            old(callbacks)@,
            outcome,
            held,
            final(callbacks)@,
            final(actions)@.skip(old(actions)@.len() as int),
        ),
{
    let ghost done = actions@;
    let ghost k = done.len() as int;
    match held.get(outcome.key) {
        Some(bytes) => {
            let chunks = as_stream(bytes);
            let plan = process_provided_file(callbacks, outcome.file, outcome.success, &chunks);
            match plan {
                Some(plan) => {
                    actions.push(
                        ClientAction::Deliver { file: outcome.file, key: Some(outcome.key), plan },
                    );
                    assert(actions@.take(k) == done);
                    assert(actions@.skip(k).len() == 1);
                    assert(actions@.skip(k)[0] == actions@[k]);
                },
                None => {
                    assert(actions@.take(k) == done);
                    assert(actions@.skip(k).len() == 0);
                },
            }
            false
        },
        None => {
            actions.push(
                ClientAction::Send(
                    ExecutorClientMessage::AskFile(outcome.file, outcome.key, outcome.success),
                ),
            );
            assert(actions@.take(k) == done);
            assert(actions@.skip(k) == seq![
                ClientAction::Send(
                    ExecutorClientMessage::AskFile(outcome.file, outcome.key, outcome.success),
                ),
            ]);
            true
        },
    }
}

impl ExecutorClient {
    /// A client for the evaluation of `dag`, with the handlers
    /// `execution_callbacks` and `file_callbacks`.
    pub fn new(
        dag: &ExecutionDAGData,
        execution_callbacks: Vec<ExecutionCallbacks>,
        file_callbacks: Vec<FileCallbacks>,
    ) -> (client: ExecutorClient)
        ensures
            client.execution_callbacks == execution_callbacks,
            client.file_callbacks == file_callbacks,
            client.missing_files is None,
            client.announced@.len() == 0,
            client.provided_files@.len() == dag.provided().len(),
            forall|i: int|
                0 <= i < dag.provided().len() ==> (#[trigger] client.provided_files@[i])
                    == (ProvidedKey {
                    file: dag.provided()[i].spec_uuid(),
                    key: dag.provided()[i].spec_key(),
                }),
    {
        let files = dag.provided_files();
        let mut provided: Vec<ProvidedKey> = Vec::new();
        let mut i: usize = 0;
        while i < files.len()
            invariant
                i <= files@.len(),
                files@ == dag.provided(),
                provided@.len() == i,
                forall|j: int|
                    0 <= j < i ==> (#[trigger] provided@[j]) == (ProvidedKey {
                        file: dag.provided()[j].spec_uuid(),
                        key: dag.provided()[j].spec_key(),
                    }),
            decreases files@.len() - i,
        {
            provided.push(ProvidedKey { file: files[i].uuid(), key: files[i].key() });
            i += 1;
        }
        ExecutorClient {
            execution_callbacks,
            file_callbacks,
            provided_files: provided,
            missing_files: None,
            announced: Vec::new(),
        }
    }

    /// What the client watches: the executions and the files that its
    /// callbacks are about, in their order.
    pub fn watch_set(&self) -> (watch: ExecutionDAGWatchSet)
        ensures
            watch.executions@ == Seq::new(
                self.execution_callbacks@.len(),
                |i: int| self.execution_callbacks@[i].execution,
            ),
            watch.files@ == Seq::new(
                self.file_callbacks@.len(),
                |i: int| self.file_callbacks@[i].file,
            ),
    {
        let mut executions: Vec<ExecutionUuid> = Vec::new();
        let mut i: usize = 0;
        while i < self.execution_callbacks.len()
            invariant
                i <= self.execution_callbacks@.len(),
                executions@ == Seq::new(i as nat, |k: int| self.execution_callbacks@[k].execution),
            decreases self.execution_callbacks@.len() - i,
        {
            executions.push(self.execution_callbacks[i].execution);
            assert(executions@ =~= Seq::new(
                (i + 1) as nat,
                |k: int| self.execution_callbacks@[k].execution,
            ));
            i += 1;
        }
        let mut files: Vec<FileUuid> = Vec::new();
        let mut i: usize = 0;
        while i < self.file_callbacks.len()
            invariant
                i <= self.file_callbacks@.len(),
                files@ == Seq::new(i as nat, |k: int| self.file_callbacks@[k].file),
            decreases self.file_callbacks@.len() - i,
        {
            files.push(self.file_callbacks[i].file);
            assert(files@ =~= Seq::new((i + 1) as nat, |k: int| self.file_callbacks@[k].file));
            i += 1;
        }
        ExecutionDAGWatchSet { executions, files }
    }

    /// Whether `new` and `step` are what the start of the evaluation of
    /// `dag` makes of `self`, where `read` has, at the place of each
    /// supplied file, what was read of it on the disk. With one content
    /// for each supplied file, what the client wants of the supplied
    /// files is done first, file by file; then the executor is sent the
    /// graph, with the executions and the files that the callbacks of
    /// the client are about: that message is the only one, and the
    /// last thing to be done. Else nothing is done.
    pub open spec fn started_to(
        &self,
        dag: ExecutionDAGData,
        read: Seq<Vec<u8>>,
        new: &ExecutorClient,
        step: Option<ClientStep>,
    ) -> bool {
        if read.len() == dag.provided().len() {
            &&& step is Some
            &&& new.supplies_as(self)
            &&& new.execution_callbacks == self.execution_callbacks
            &&& new.missing_files == self.missing_files
            &&& new.announced == self.announced
            &&& step.unwrap().flow == Flow::GoOn
            &&& step.unwrap().actions@.len() > 0
            &&& step.unwrap().actions@.last() matches ClientAction::Send(
                ExecutorClientMessage::Evaluate { dag: sent, callbacks },
            )
            &&& sent == dag
            &&& callbacks.executions@ == Seq::new(
                self.execution_callbacks@.len(),
                |i: int| self.execution_callbacks@[i].execution,
            )
            &&& callbacks.files@ == Seq::new(
                self.file_callbacks@.len(),
                |i: int| self.file_callbacks@[i].file,
            )
            &&& supplies_taken(
                self.file_callbacks@,
                dag.provided(),
                read,
                new.file_callbacks@,
                step.unwrap().actions@.drop_last(),
            )
        } else {
            step is None && *new == *self
        }
    }

    /// Starts the evaluation of `dag`, where `read` has, at the place of
    /// each supplied file, what was read of it on the disk, and says
    /// what is to be done.
    pub fn start(&mut self, dag: ExecutionDAGData, read: &Vec<Vec<u8>>) -> (step: Option<ClientStep>)
        ensures
            old(self).started_to(dag, read@, final(self), step),
    {
        if read.len() != dag.provided_files().len() {
            return None;
        }
        let callbacks = self.watch_set();
        let mut actions: Vec<ClientAction> = Vec::new();
        let files = dag.provided_files();
        let mut i: usize = 0;
        assert(files@.take(0) == Seq::<ProvidedFile>::empty());
        while i < files.len()
            invariant
                i <= files@.len(),
                files@ == dag.provided(),
                read@.len() == files@.len(),
                self.provided_files == old(self).provided_files,
                self.execution_callbacks == old(self).execution_callbacks,
                self.missing_files == old(self).missing_files,
                self.announced == old(self).announced,
                supplies_taken(
                    old(self).file_callbacks@,
                    files@.take(i as int),
                    read@,
                    self.file_callbacks@,
                    actions@,
                ),
            decreases files@.len() - i,
        {
            let ghost between = self.file_callbacks@;
            let ghost done = actions@;
            proof {
                assert(files@.take(i + 1).drop_last() == files@.take(i as int));
                assert(files@.take(i + 1).last() == files@[i as int]);
            }
            take_supply(&mut self.file_callbacks, &files[i], &read[i], &mut actions);
            proof {
                let k = done.len() as int;
                assert(cut_at(between, k));
                assert(actions@.take(k) == done);
                assert(supplies_taken(
                    old(self).file_callbacks@,
                    files@.take(i + 1),
                    read@,
                    self.file_callbacks@,
                    actions@,
                ));
            }
            i += 1;
        }
        assert(files@.take(i as int) == files@);
        let ghost delivered = actions@;
        actions.push(ClientAction::Send(ExecutorClientMessage::Evaluate { dag, callbacks }));
        assert(actions@.drop_last() == delivered);
        Some(ClientStep { actions, flow: Flow::GoOn })
    }

    /// Takes the list of the watched files at the end of an evaluation.
    fn on_done(&mut self, outcomes: Vec<FileOutcome>, held: &FileStore) -> (step: ClientStep)
        ensures
            final(self).supplies_as(old(self)),
            final(self).announced@ == outcomes@,
            final(self).execution_callbacks == old(self).execution_callbacks,
            final(self).missing_files == Some(not_held(outcomes@, held) as usize),
            not_held(outcomes@, held) <= usize::MAX,
            step.flow == if final(self).missing_files == Some(0usize) {
                Flow::Stop
            } else {
                Flow::GoOn
            },
            outcomes_taken(
                old(self).file_callbacks@,
                outcomes@,
                held,
                final(self).file_callbacks@,
                step.actions@,
            ),
    {
        let mut actions: Vec<ClientAction> = Vec::new();
        let mut missing: usize = 0;
        let mut i: usize = 0;
        assert(outcomes@.take(0) == Seq::<FileOutcome>::empty());
        while i < outcomes.len()
            invariant
                i <= outcomes@.len(),
                self.provided_files == old(self).provided_files,
                self.execution_callbacks == old(self).execution_callbacks,
                missing == not_held(outcomes@.take(i as int), held),
                missing <= i,
                outcomes_taken(
                    old(self).file_callbacks@,
                    outcomes@.take(i as int),
                    held,
                    self.file_callbacks@,
                    actions@,
                ),
            decreases outcomes@.len() - i,
        {
            let outcome = outcomes[i];
            let ghost between = self.file_callbacks@;
            let ghost done = actions@;
            proof {
                assert(outcomes@.take(i + 1).drop_last() == outcomes@.take(i as int));
                assert(outcomes@.take(i + 1).last() == outcome);
            }
            let asked = take_outcome(&mut self.file_callbacks, outcome, held, &mut actions);
            if asked {
                missing += 1;
            }
            proof {
                let k = done.len() as int;
                assert(cut_at(between, k));
                assert(actions@.take(k) == done);
                assert(outcomes_taken(
                    old(self).file_callbacks@,
                    outcomes@.take(i + 1),
                    held,
                    self.file_callbacks@,
                    actions@,
                ));
            }
            i += 1;
        }
        assert(outcomes@.take(i as int) == outcomes@);
        self.missing_files = Some(missing);
        self.announced = outcomes;
        let flow = if missing == 0 {
            Flow::Stop
        } else {
            Flow::GoOn
        };
        ClientStep { actions, flow }
    }

    /// Takes what came from the executor, with the chunks `stream` that
    /// followed it and the contents `held` at hand, and says what is to
    /// be done.
    pub fn evaluate(
        &mut self,
        received: Received<ExecutorServerMessage>,
        stream: &Vec<Vec<u8>>,
        held: &FileStore,
    ) -> (step: ClientStep)
        ensures
            old(self).server_step(received, stream@, held, final(self), step),
    {
        match received {
            Received::Message(ExecutorServerMessage::AskFile(file)) => {
                let mut actions: Vec<ClientAction> = Vec::new();
                match find_provided(&self.provided_files, file) {
                    Some(key) => {
                        actions.push(
                            ClientAction::Send(ExecutorClientMessage::ProvideFile(file, key)),
                        );
                        actions.push(ClientAction::StreamProvided(file));
                        assert(actions@ == seq![
                            ClientAction::Send(ExecutorClientMessage::ProvideFile(file, key)),
                            ClientAction::StreamProvided(file),
                        ]);
                    },
                    None => {},
                }
                ClientStep { actions, flow: Flow::GoOn }
            },
            Received::Message(ExecutorServerMessage::NotifyStart(execution, worker)) => {
                let count = fire(&mut self.execution_callbacks, execution, Event::Start);
                let mut actions: Vec<ClientAction> = Vec::new();
                if count > 0 {
                    actions.push(ClientAction::FireStart { execution, worker, callbacks: count });
                    assert(actions@ == seq![
                        ClientAction::FireStart { execution, worker, callbacks: count },
                    ]);
                }
                ClientStep { actions, flow: Flow::GoOn }
            },
            Received::Message(ExecutorServerMessage::NotifyDone(execution, result)) => {
                let count = fire(&mut self.execution_callbacks, execution, Event::Done);
                let mut actions: Vec<ClientAction> = Vec::new();
                if count > 0 {
                    actions.push(ClientAction::FireDone { execution, result, callbacks: count });
                    assert(actions@ == seq![
                        ClientAction::FireDone { execution, result, callbacks: count },
                    ]);
                }
                ClientStep { actions, flow: Flow::GoOn }
            },
            Received::Message(ExecutorServerMessage::NotifySkip(execution)) => {
                let count = fire(&mut self.execution_callbacks, execution, Event::Skip);
                let mut actions: Vec<ClientAction> = Vec::new();
                if count > 0 {
                    actions.push(ClientAction::FireSkip { execution, callbacks: count });
                    assert(actions@ == seq![ClientAction::FireSkip { execution, callbacks: count }]);
                }
                ClientStep { actions, flow: Flow::GoOn }
            },
            Received::Message(ExecutorServerMessage::ProvideFile(file, success)) => {
                let refused = match find_announced(&self.announced, file) {
                    Some(key) => {
                        let digest = key_of(&assemble(stream));
                        digest.hi != key.hi || digest.lo != key.lo
                    },
                    None => false,
                };
                if refused {
                    let mut actions: Vec<ClientAction> = Vec::new();
                    actions.push(
                        ClientAction::Failed(
                            String::from_str(
                                "the content of a file does not have the announced key",
                            ),
                        ),
                    );
                    return ClientStep { actions, flow: Flow::Stop };
                }
                let missing = match self.missing_files {
                    Some(missing) => Some(
                        if missing > 0 {
                            missing - 1
                        } else {
                            0
                        },
                    ),
                    None => None,
                };
                self.missing_files = missing;
                let plan = process_provided_file(&mut self.file_callbacks, file, success, stream);
                let mut actions: Vec<ClientAction> = Vec::new();
                match plan {
                    Some(plan) => {
                        actions.push(ClientAction::Deliver { file, key: None, plan });
                    },
                    None => {},
                }
                let flow = match missing {
                    Some(0) => Flow::Stop,
                    _ => Flow::GoOn,
                };
                ClientStep { actions, flow }
            },
            Received::Message(ExecutorServerMessage::Status(status)) => {
                let mut actions: Vec<ClientAction> = Vec::new();
                actions.push(ClientAction::ReportStatus(status));
                assert(actions@ == seq![ClientAction::ReportStatus(status)]);
                ClientStep { actions, flow: Flow::GoOn }
            },
            Received::Message(ExecutorServerMessage::Error(message)) => {
                let mut actions: Vec<ClientAction> = Vec::new();
                actions.push(ClientAction::Failed(message));
                assert(actions@ == seq![ClientAction::Failed(message)]);
                ClientStep { actions, flow: Flow::Stop }
            },
            Received::Message(ExecutorServerMessage::Done(outcomes)) => {
                proof {
                    lemma_not_held(outcomes@, held);
                }
                self.on_done(outcomes, held)
            },
            Received::Closed => ClientStep { actions: Vec::new(), flow: Flow::Stop },
            Received::Garbled => {
                let mut actions: Vec<ClientAction> = Vec::new();
                actions.push(
                    ClientAction::Failed(
                        String::from_str("a message could not be read"),
                    ),
                );
                ClientStep { actions, flow: Flow::Stop }
            },
        }
    }
}

} // verus!
