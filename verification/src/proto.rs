//! The messages that the client, the executor and the workers exchange.

use crate::dag::{
    Execution, ExecutionDAGData, ExecutionDAGWatchSet, ExecutionUuid, FileKey, FileUuid,
    WorkerUuid,
};
use vstd::prelude::*;

verus! {

/// How a process ended.
#[derive(Clone, Debug)]
pub enum ExecutionStatus {
    /// It returned zero.
    Success,
    /// It returned something else.
    ReturnCode(u32),
    /// A signal, with its number and name, stopped it.
    Signal(u32, String),
    /// It used more time in user space than allowed.
    TimeLimitExceeded,
    /// It used more time in kernel space than allowed.
    SysTimeLimitExceeded,
    /// It ran longer on the clock than allowed.
    WallTimeLimitExceeded,
    /// It used more memory than allowed.
    MemoryLimitExceeded,
    /// The sandbox could not run it.
    InternalError(String),
}

/// What a process used. Times are in microseconds, memory in KiB.
#[derive(Clone, Copy, Debug, PartialEq, Eq, Structural)]
pub struct ExecutionResourcesUsage {
    /// Time in user space.
    pub cpu_time: u64,
    /// Time in kernel space.
    pub sys_time: u64,
    /// Time on the clock.
    pub wall_time: u64,
    /// Peak memory.
    pub memory: u64,
}

/// The outcome of an execution.
#[derive(Clone, Debug)]
pub struct ExecutionResult {
    /// How the process ended.
    pub status: ExecutionStatus,
    /// What it used, where it ran.
    pub resources: Option<ExecutionResourcesUsage>,
}

impl ExecutionResult {
    /// Whether the process returned zero.
    pub open spec fn succeeded(&self) -> bool {
        self.status is Success
    }

    /// Whether the process returned zero.
    #[verifier::when_used_as_spec(succeeded)]
    pub fn is_success(&self) -> (yes: bool)
        ensures
            yes == self.succeeded(),
    {
        match self.status {
            ExecutionStatus::Success => true,
            _ => false,
        }
    }
}

/// The key of a file that an execution needs.
#[derive(Clone, Copy, Debug, PartialEq, Eq, Structural)]
pub struct FileDependency {
    /// The file.
    pub file: FileUuid,
    /// The digest of its content.
    pub key: FileKey,
}

/// A job for a worker: an execution and the keys of the files it needs.
#[derive(Clone, Debug)]
pub struct Work {
    /// The execution to run.
    pub execution: Execution,
    /// The keys of the files that the execution needs, in the order of
    /// its dependencies.
    pub dep_keys: Vec<FileDependency>,
}

/// A file that a worker took out of the sandbox.
#[derive(Clone, Debug)]
pub struct WorkerOutput {
    /// Where the file lay, relative to the sandbox.
    pub path: String,
    /// The file.
    pub file: FileUuid,
    /// The digest of its content.
    pub key: FileKey,
}

/// What became of a file that the client watches.
#[derive(Clone, Copy, Debug, PartialEq, Eq, Structural)]
pub struct FileOutcome {
    /// The file.
    pub file: FileUuid,
    /// The digest of its content.
    pub key: FileKey,
    /// Whether the execution that made it returned zero.
    pub success: bool,
}

/// What a worker is doing.
#[derive(Clone, Debug)]
pub struct ExecutorWorkerStatus {
    /// The worker.
    pub uuid: WorkerUuid,
    /// The name the worker gave.
    pub name: String,
    /// The description of its job and the milliseconds since it got it.
    pub current_job: Option<(String, u64)>,
}

/// What the executor is doing.
#[derive(Clone, Debug)]
pub struct ExecutorStatus {
    /// The workers that asked for work, in the order in which they asked.
    pub connected_workers: Vec<ExecutorWorkerStatus>,
    /// How many executions could start at once.
    pub ready_execs: usize,
    /// How many executions wait for a file.
    pub waiting_execs: usize,
}

/// What the client tells the executor.
#[derive(Debug)]
pub enum ExecutorClientMessage {
    /// Evaluate this graph and tell about what is watched.
    Evaluate {
        /// The graph.
        dag: ExecutionDAGData,
        /// What the client watches.
        callbacks: ExecutionDAGWatchSet,
    },
    /// The content of a supplied file follows.
    ProvideFile(FileUuid, FileKey),
    /// Send the content of a file that was made.
    AskFile(FileUuid, FileKey, bool),
    /// Tell what the executor is doing.
    Status,
    /// Stop.
    Stop,
}

/// What the executor tells the client.
#[derive(Clone, Debug)]
pub enum ExecutorServerMessage {
    /// Send the content of a supplied file.
    AskFile(FileUuid),
    /// An execution started on a worker.
    NotifyStart(ExecutionUuid, WorkerUuid),
    /// An execution ended.
    NotifyDone(ExecutionUuid, ExecutionResult),
    /// An execution will not run.
    NotifySkip(ExecutionUuid),
    /// The content of a file that was made follows.
    ProvideFile(FileUuid, bool),
    /// What the executor is doing.
    Status(ExecutorStatus),
    /// The evaluation failed.
    Error(String),
    /// The evaluation is over; the watched files are listed.
    Done(Vec<FileOutcome>),
}

/// What a worker tells the executor.
#[derive(Clone, Debug)]
pub enum WorkerClientMessage {
    /// The worker is free.
    GetWork,
    /// The job ended, and these files came out of the sandbox.
    WorkerDone(ExecutionResult, Vec<WorkerOutput>),
}

/// What the executor tells a worker.
#[derive(Clone, Debug)]
pub enum WorkerServerMessage {
    /// Run this.
    Work(Work),
}

/// What came out of a channel.
#[derive(Debug)]
pub enum Received<M> {
    /// A message.
    Message(M),
    /// Nothing: the other side closed the channel.
    Closed,
    /// Bytes that are no message.
    Garbled,
}

/// How a process ended, with its texts as sequences of characters.
pub enum StatusView {
    /// It returned zero.
    Success,
    /// It returned something else.
    ReturnCode(u32),
    /// A signal, with its number and name, stopped it.
    Signal(u32, Seq<char>),
    /// It used more time in user space than allowed.
    TimeLimitExceeded,
    /// It used more time in kernel space than allowed.
    SysTimeLimitExceeded,
    /// It ran longer on the clock than allowed.
    WallTimeLimitExceeded,
    /// It used more memory than allowed.
    MemoryLimitExceeded,
    /// The sandbox could not run it.
    InternalError(Seq<char>),
}

impl View for ExecutionStatus {
    type V = StatusView;

    open spec fn view(&self) -> StatusView {
        match self {
            ExecutionStatus::Success => StatusView::Success,
            ExecutionStatus::ReturnCode(code) => StatusView::ReturnCode(*code),
            ExecutionStatus::Signal(number, name) => StatusView::Signal(*number, name@),
            ExecutionStatus::TimeLimitExceeded => StatusView::TimeLimitExceeded,
            ExecutionStatus::SysTimeLimitExceeded => StatusView::SysTimeLimitExceeded,
            ExecutionStatus::WallTimeLimitExceeded => StatusView::WallTimeLimitExceeded,
            ExecutionStatus::MemoryLimitExceeded => StatusView::MemoryLimitExceeded,
            ExecutionStatus::InternalError(message) => StatusView::InternalError(message@),
        }
    }
}

/// The outcome of an execution, with its texts as sequences of
/// characters.
pub struct ResultView {
    /// How the process ended.
    pub status: StatusView,
    /// What it used, where it ran.
    pub resources: Option<ExecutionResourcesUsage>,
}

impl View for ExecutionResult {
    type V = ResultView;

    open spec fn view(&self) -> ResultView {
        ResultView { status: self.status@, resources: self.resources }
    }
}

/// What a worker is doing, with its texts as sequences of characters.
pub struct WorkerStatusView {
    /// The worker.
    pub uuid: WorkerUuid,
    /// The name the worker gave.
    pub name: Seq<char>,
    /// The description of its job and the milliseconds since it got it.
    pub current_job: Option<(Seq<char>, u64)>,
}

impl View for ExecutorWorkerStatus {
    type V = WorkerStatusView;

    open spec fn view(&self) -> WorkerStatusView {
        WorkerStatusView {
            uuid: self.uuid,
            name: self.name@,
            current_job: match self.current_job {
                Some((description, elapsed)) => Some((description@, elapsed)),
                None => None,
            },
        }
    }
}

/// What the executor is doing, with its texts as sequences of
/// characters.
pub struct SnapshotView {
    /// The workers that asked for work, in the order in which they asked.
    pub connected_workers: Seq<WorkerStatusView>,
    /// How many executions could start at once.
    pub ready_execs: usize,
    /// How many executions wait for a file.
    pub waiting_execs: usize,
}

impl View for ExecutorStatus {
    type V = SnapshotView;

    open spec fn view(&self) -> SnapshotView {
        SnapshotView {
            connected_workers: Seq::new(
                self.connected_workers@.len(),
                |i: int| self.connected_workers@[i]@,
            ),
            ready_execs: self.ready_execs,
            waiting_execs: self.waiting_execs,
        }
    }
}

/// What the executor tells the client, with its texts and lists as
/// sequences.
pub enum ServerMessageView {
    /// Send the content of a supplied file.
    AskFile(FileUuid),
    /// An execution started on a worker.
    NotifyStart(ExecutionUuid, WorkerUuid),
    /// An execution ended.
    NotifyDone(ExecutionUuid, ResultView),
    /// An execution will not run.
    NotifySkip(ExecutionUuid),
    /// The content of a file that was made follows.
    ProvideFile(FileUuid, bool),
    /// What the executor is doing.
    Status(SnapshotView),
    /// The evaluation failed.
    Error(Seq<char>),
    /// The evaluation is over; the watched files are listed.
    Done(Seq<FileOutcome>),
}

impl View for ExecutorServerMessage {
    type V = ServerMessageView;

    open spec fn view(&self) -> ServerMessageView {
        match self {
            ExecutorServerMessage::AskFile(file) => ServerMessageView::AskFile(*file),
            ExecutorServerMessage::NotifyStart(execution, worker) => ServerMessageView::NotifyStart(
                *execution,
                *worker,
            ),
            ExecutorServerMessage::NotifyDone(execution, result) => ServerMessageView::NotifyDone(
                *execution,
                result@,
            ),
            ExecutorServerMessage::NotifySkip(execution) => ServerMessageView::NotifySkip(
                *execution,
            ),
            ExecutorServerMessage::ProvideFile(file, success) => ServerMessageView::ProvideFile(
                *file,
                *success,
            ),
            ExecutorServerMessage::Status(status) => ServerMessageView::Status(status@),
            ExecutorServerMessage::Error(message) => ServerMessageView::Error(message@),
            ExecutorServerMessage::Done(files) => ServerMessageView::Done(files@),
        }
    }
}

impl ExecutionResult {
    /// A copy of the result.
    pub fn duplicate(&self) -> (copy: ExecutionResult)
        ensures
            copy@ == self@,
    {
        let status = match &self.status {
            ExecutionStatus::Success => ExecutionStatus::Success,
            ExecutionStatus::ReturnCode(code) => ExecutionStatus::ReturnCode(*code),
            ExecutionStatus::Signal(number, name) => ExecutionStatus::Signal(*number, name.clone()),
            ExecutionStatus::TimeLimitExceeded => ExecutionStatus::TimeLimitExceeded,
            ExecutionStatus::SysTimeLimitExceeded => ExecutionStatus::SysTimeLimitExceeded,
            ExecutionStatus::WallTimeLimitExceeded => ExecutionStatus::WallTimeLimitExceeded,
            ExecutionStatus::MemoryLimitExceeded => ExecutionStatus::MemoryLimitExceeded,
            ExecutionStatus::InternalError(message) => ExecutionStatus::InternalError(
                message.clone(),
            ),
        };
        ExecutionResult { status, resources: self.resources }
    }
}

impl ServerMessageView {
    /// Whether the message says that `execution` ended or will not run.
    pub open spec fn ends(self, execution: ExecutionUuid) -> bool {
        match self {
            ServerMessageView::NotifyDone(e, _) => e == execution,
            ServerMessageView::NotifySkip(e) => e == execution,
            _ => false,
        }
    }

    /// Whether the message says that `execution` started.
    pub open spec fn starts(self, execution: ExecutionUuid) -> bool {
        match self {
            ServerMessageView::NotifyStart(e, _) => e == execution,
            _ => false,
        }
    }
}

} // verus!
