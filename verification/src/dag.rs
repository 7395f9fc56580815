//! The data model of an execution graph: files, executions and the graph
//! that links them.

use vstd::prelude::*;

verus! {

/// Identifier of a file of the graph.
pub type FileUuid = u128;

/// Identifier of an execution of the graph.
pub type ExecutionUuid = u128;

/// Identifier of a worker.
pub type WorkerUuid = u128;

/// Digest of the content of a file, 256 bits wide.
#[derive(Clone, Copy, Debug, PartialEq, Eq, Structural)]
pub struct FileKey {
    /// The most significant half of the digest.
    pub hi: u128,
    /// The least significant half of the digest.
    pub lo: u128,
}

/// What an execution runs.
#[derive(Clone, Debug)]
pub enum ExecutionCommand {
    /// A program found by name in the search path of the worker.
    System(String),
    /// A program at a path inside the sandbox, put there as an input file.
    Local(String),
}

/// An input file of an execution.
#[derive(Clone, Debug)]
pub struct ExecutionInput {
    /// Where the file is put, relative to the sandbox.
    pub path: String,
    /// The file.
    pub file: FileUuid,
    /// Whether the file is made executable.
    pub executable: bool,
}

/// An output file of an execution.
#[derive(Clone, Debug)]
pub struct ExecutionOutput {
    /// Where the file is taken from, relative to the sandbox.
    pub path: String,
    /// The file.
    pub file: FileUuid,
}

/// One variable of the environment of an execution.
#[derive(Clone, Debug)]
pub struct EnvVar {
    /// The name of the variable.
    pub name: String,
    /// Its value.
    pub value: String,
}

/// Limits on the resources of an execution. Times are in milliseconds,
/// memory in KiB.
#[derive(Clone, Debug)]
pub struct ExecutionLimits {
    /// Time in user space.
    pub cpu_time: Option<u64>,
    /// Time in kernel space.
    pub sys_time: Option<u64>,
    /// Time on the clock.
    pub wall_time: Option<u64>,
    /// Peak memory.
    pub memory: Option<u64>,
    /// Number of processes; `None` lifts the limit.
    pub nproc: Option<u32>,
    /// Whether the sandbox directory is read-only while the process runs.
    pub read_only: bool,
    /// Whether a temporary file system is mounted in the sandbox.
    pub mount_tmpfs: bool,
    /// Directories that the process may read besides the system ones.
    pub extra_readable_dirs: Vec<String>,
}

impl ExecutionLimits {
    /// No limit but that on processes: one process, a writable sandbox.
    pub fn unrestricted() -> (l: ExecutionLimits)
        ensures
            l.cpu_time is None,
            l.sys_time is None,
            l.wall_time is None,
            l.memory is None,
            l.nproc == Some(1u32),
            !l.read_only,
            !l.mount_tmpfs,
            l.extra_readable_dirs@.len() == 0,
    {
        ExecutionLimits {
            cpu_time: None,
            sys_time: None,
            wall_time: None,
            memory: None,
            nproc: Some(1),
            read_only: false,
            mount_tmpfs: false,
            extra_readable_dirs: Vec::new(),
        }
    }
}

/// A process waiting to be run in a sandbox.
#[derive(Clone, Debug)]
pub struct Execution {
    /// The identifier of the execution.
    pub uuid: ExecutionUuid,
    /// What the execution is, for people.
    pub description: String,
    /// The program.
    pub command: ExecutionCommand,
    /// The arguments of the program.
    pub args: Vec<String>,
    /// Variables added to the environment.
    pub env: Vec<EnvVar>,
    /// The file given as standard input.
    pub stdin: Option<FileUuid>,
    /// The file that takes the standard output.
    pub stdout: Option<FileUuid>,
    /// The file that takes the standard error.
    pub stderr: Option<FileUuid>,
    /// The input files.
    pub inputs: Vec<ExecutionInput>,
    /// The output files.
    pub outputs: Vec<ExecutionOutput>,
    /// The limits.
    pub limits: ExecutionLimits,
    /// A label, used to group executions.
    pub tag: Option<String>,
    /// The rank among the executions that are ready; the greater goes first.
    pub priority: Option<u64>,
    /// Time in milliseconds granted on top of the time limits.
    pub extra_time: u64,
}

/// The file of an optional reference, as a sequence of at most one file.
pub open spec fn optional_file(file: Option<FileUuid>) -> Seq<FileUuid> {
    match file {
        Some(f) => seq![f],
        None => Seq::empty(),
    }
}

impl Execution {
    /// The files that the inputs name, in their order.
    pub open spec fn input_files(&self) -> Seq<FileUuid> {
        Seq::new(self.inputs@.len(), |i: int| self.inputs@[i].file)
    }

    /// The files that the outputs name, in their order.
    pub open spec fn output_files(&self) -> Seq<FileUuid> {
        Seq::new(self.outputs@.len(), |i: int| self.outputs@[i].file)
    }

    /// The files that must exist before the execution can start: the
    /// standard input, then the inputs.
    pub open spec fn needs(&self) -> Seq<FileUuid> {
        optional_file(self.stdin) + self.input_files()
    }

    /// The files that the execution makes: the standard output, the
    /// standard error, then the outputs.
    pub open spec fn makes(&self) -> Seq<FileUuid> {
        optional_file(self.stdout) + optional_file(self.stderr) + self.output_files()
    }

    /// An execution of `command` with no argument, file or limit.
    pub fn new(uuid: ExecutionUuid, description: String, command: ExecutionCommand) -> (e:
        Execution)
        ensures
            e.uuid == uuid,
            e.description == description,
            e.command == command,
            e.args@.len() == 0,
            e.env@.len() == 0,
            e.stdin is None,
            e.stdout is None,
            e.stderr is None,
            e.inputs@.len() == 0,
            e.outputs@.len() == 0,
            e.limits.cpu_time is None,
            e.limits.sys_time is None,
            e.limits.wall_time is None,
            e.limits.memory is None,
            e.limits.nproc == Some(1u32),
            !e.limits.read_only,
            !e.limits.mount_tmpfs,
            e.limits.extra_readable_dirs@.len() == 0,
            e.tag is None,
            e.priority is None,
            e.extra_time == 0,
            e.needs() == Seq::<FileUuid>::empty(),
            e.makes() == Seq::<FileUuid>::empty(),
    {
        Execution {
            uuid,
            description,
            command,
            args: Vec::new(),
            env: Vec::new(),
            stdin: None,
            stdout: None,
            stderr: None,
            inputs: Vec::new(),
            outputs: Vec::new(),
            limits: ExecutionLimits::unrestricted(),
            tag: None,
            priority: None,
            extra_time: 0,
        }
    }

    /// The files that must exist before the execution can start.
    pub fn dependencies(&self) -> (deps: Vec<FileUuid>)
        ensures
            deps@ == self.needs(),
    {
        let mut deps: Vec<FileUuid> = Vec::new();
        if let Some(f) = self.stdin {
            deps.push(f);
        }
        let mut i: usize = 0;
        while i < self.inputs.len()
            invariant
                i <= self.inputs@.len(),
                deps@ == optional_file(self.stdin) + self.input_files().take(i as int),
            decreases self.inputs@.len() - i,
        {
            deps.push(self.inputs[i].file);
            i += 1;
        }
        assert(self.input_files().take(i as int) == self.input_files());
        deps
    }

    /// The files that the execution makes.
    pub fn products(&self) -> (made: Vec<FileUuid>)
        ensures
            made@ == self.makes(),
    {
        let mut made: Vec<FileUuid> = Vec::new();
        if let Some(f) = self.stdout {
            made.push(f);
        }
        if let Some(f) = self.stderr {
            made.push(f);
        }
        let mut i: usize = 0;
        while i < self.outputs.len()
            invariant
                i <= self.outputs@.len(),
                made@ == optional_file(self.stdout) + optional_file(self.stderr)
                    + self.output_files().take(i as int),
            decreases self.outputs@.len() - i,
        {
            made.push(self.outputs[i].file);
            i += 1;
        }
        assert(self.output_files().take(i as int) == self.output_files());
        made
    }
}

/// A copy of `texts`.
pub fn copy_texts(texts: &Vec<String>) -> (copy: Vec<String>)
    ensures
        copy@ == texts@,
{
    let mut copy: Vec<String> = Vec::new();
    let mut i: usize = 0;
    while i < texts.len()
        invariant
            i <= texts@.len(),
            copy@ == texts@.take(i as int),
        decreases texts@.len() - i,
    {
        copy.push(texts[i].clone());
        assert(copy@ == texts@.take(i + 1));
        i += 1;
    }
    assert(texts@.take(i as int) == texts@);
    copy
}

impl ExecutionLimits {
    /// Whether `self` sets the same limits as `other`.
    pub open spec fn same(&self, other: &ExecutionLimits) -> bool {
        &&& self.cpu_time == other.cpu_time
        &&& self.sys_time == other.sys_time
        &&& self.wall_time == other.wall_time
        &&& self.memory == other.memory
        &&& self.nproc == other.nproc
        &&& self.read_only == other.read_only
        &&& self.mount_tmpfs == other.mount_tmpfs
        &&& self.extra_readable_dirs@ == other.extra_readable_dirs@
    }

    /// A copy of the limits.
    pub fn duplicate(&self) -> (copy: ExecutionLimits)
        ensures
            copy.same(self),
    {
        ExecutionLimits {
            cpu_time: self.cpu_time,
            sys_time: self.sys_time,
            wall_time: self.wall_time,
            memory: self.memory,
            nproc: self.nproc,
            read_only: self.read_only,
            mount_tmpfs: self.mount_tmpfs,
            extra_readable_dirs: copy_texts(&self.extra_readable_dirs),
        }
    }
}

impl Execution {
    /// Whether `self` describes the same process as `other`, with the
    /// same identifier and the same files.
    pub open spec fn same(&self, other: &Execution) -> bool {
        &&& self.uuid == other.uuid
        &&& self.description == other.description
        &&& self.command == other.command
        &&& self.args@ == other.args@
        &&& self.env@ == other.env@
        &&& self.stdin == other.stdin
        &&& self.stdout == other.stdout
        &&& self.stderr == other.stderr
        &&& self.inputs@ == other.inputs@
        &&& self.outputs@ == other.outputs@
        &&& self.limits.same(&other.limits)
        &&& self.tag == other.tag
        &&& self.priority == other.priority
        &&& self.extra_time == other.extra_time
    }

    /// A copy of the execution.
    pub fn duplicate(&self) -> (copy: Execution)
        ensures
            copy.same(self),
            copy.needs() == self.needs(),
            copy.makes() == self.makes(),
    {
        let command = match &self.command {
            ExecutionCommand::System(name) => ExecutionCommand::System(name.clone()),
            ExecutionCommand::Local(path) => ExecutionCommand::Local(path.clone()),
        };
        let tag = match &self.tag {
            Some(tag) => Some(tag.clone()),
            None => None,
        };
        let mut env: Vec<EnvVar> = Vec::new();
        let mut i: usize = 0;
        while i < self.env.len()
            invariant
                i <= self.env@.len(),
                env@ == self.env@.take(i as int),
            decreases self.env@.len() - i,
        {
            env.push(EnvVar { name: self.env[i].name.clone(), value: self.env[i].value.clone() });
            assert(env@ == self.env@.take(i + 1));
            i += 1;
        }
        assert(self.env@.take(i as int) == self.env@);
        let mut inputs: Vec<ExecutionInput> = Vec::new();
        let mut i: usize = 0;
        while i < self.inputs.len()
            invariant
                i <= self.inputs@.len(),
                inputs@ == self.inputs@.take(i as int),
            decreases self.inputs@.len() - i,
        {
            inputs.push(
                ExecutionInput {
                    path: self.inputs[i].path.clone(),
                    file: self.inputs[i].file,
                    executable: self.inputs[i].executable,
                },
            );
            assert(inputs@ == self.inputs@.take(i + 1));
            i += 1;
        }
        assert(self.inputs@.take(i as int) == self.inputs@);
        let mut outputs: Vec<ExecutionOutput> = Vec::new();
        let mut i: usize = 0;
        while i < self.outputs.len()
            invariant
                i <= self.outputs@.len(),
                outputs@ == self.outputs@.take(i as int),
            decreases self.outputs@.len() - i,
        {
            outputs.push(
                ExecutionOutput { path: self.outputs[i].path.clone(), file: self.outputs[i].file },
            );
            assert(outputs@ == self.outputs@.take(i + 1));
            i += 1;
        }
        assert(self.outputs@.take(i as int) == self.outputs@);
        let copy = Execution {
            uuid: self.uuid,
            description: self.description.clone(),
            command,
            args: copy_texts(&self.args),
            env,
            stdin: self.stdin,
            stdout: self.stdout,
            stderr: self.stderr,
            inputs,
            outputs,
            limits: self.limits.duplicate(),
            tag,
            priority: self.priority,
            extra_time: self.extra_time,
        };
        assert(copy.input_files() == self.input_files());
        assert(copy.output_files() == self.output_files());
        copy
    }
}

/// A file that the client supplies.
#[derive(Clone, Debug)]
pub enum ProvidedFile {
    /// A file on the disk of the client.
    LocalFile {
        /// The file.
        file: FileUuid,
        /// The digest of its content.
        key: FileKey,
        /// Where it lies.
        local_path: String,
    },
    /// A file whose content is at hand.
    Content {
        /// The file.
        file: FileUuid,
        /// The digest of its content.
        key: FileKey,
        /// The content.
        content: Vec<u8>,
    },
}

impl ProvidedFile {
    /// The file that is supplied.
    pub open spec fn spec_uuid(&self) -> FileUuid {
        match self {
            ProvidedFile::LocalFile { file, .. } => *file,
            ProvidedFile::Content { file, .. } => *file,
        }
    }

    /// The digest that the client announces for the file.
    pub open spec fn spec_key(&self) -> FileKey {
        match self {
            ProvidedFile::LocalFile { key, .. } => *key,
            ProvidedFile::Content { key, .. } => *key,
        }
    }

    /// The file that is supplied.
    #[verifier::when_used_as_spec(spec_uuid)]
    pub fn uuid(&self) -> (f: FileUuid)
        ensures
            f == self.spec_uuid(),
    {
        match self {
            ProvidedFile::LocalFile { file, .. } => *file,
            ProvidedFile::Content { file, .. } => *file,
        }
    }

    /// The digest that the client announces for the file.
    #[verifier::when_used_as_spec(spec_key)]
    pub fn key(&self) -> (k: FileKey)
        ensures
            k == self.spec_key(),
    {
        match self {
            ProvidedFile::LocalFile { key, .. } => *key,
            ProvidedFile::Content { key, .. } => *key,
        }
    }
}

/// The executions and files for which the client wants to be told what
/// happens.
#[derive(Clone, Debug)]
pub struct ExecutionDAGWatchSet {
    /// The executions that are watched.
    pub executions: Vec<ExecutionUuid>,
    /// The files that are watched.
    pub files: Vec<FileUuid>,
}

/// A graph of executions, with the files that the client supplies.
///
/// No two executions of a graph share an identifier, and no file is
/// supplied twice.
#[derive(Debug)]
pub struct ExecutionDAGData {
    executions: Vec<Execution>,
    provided_files: Vec<ProvidedFile>,
}

/// Whether no two of the executions share an identifier.
pub open spec fn distinct_executions(execs: Seq<Execution>) -> bool {
    forall|i: int, j: int|
        0 <= i < execs.len() && 0 <= j < execs.len() && (#[trigger] execs[i]).uuid == (
        #[trigger] execs[j]).uuid ==> i == j
}

/// Whether no file is supplied twice.
pub open spec fn distinct_provided(files: Seq<ProvidedFile>) -> bool {
    forall|i: int, j: int|
        0 <= i < files.len() && 0 <= j < files.len() && (#[trigger] files[i]).spec_uuid() == (
        #[trigger] files[j]).spec_uuid() ==> i == j
}

/// The position of the execution `uuid` among `execs`, if it is there.
pub open spec fn position_of(execs: Seq<Execution>, uuid: ExecutionUuid) -> Option<int> {
    if exists|i: int| 0 <= i < execs.len() && execs[i].uuid == uuid {
        Some(choose|i: int| 0 <= i < execs.len() && execs[i].uuid == uuid)
    } else {
        None
    }
}

impl ExecutionDAGData {
    #[verifier::type_invariant]
    spec fn distinct_identifiers(self) -> bool {
        distinct_executions(self.executions@) && distinct_provided(self.provided_files@)
    }

    /// The executions, in the order in which they were added.
    pub closed spec fn execs(&self) -> Seq<Execution> {
        self.executions@
    }

    /// The supplied files, in the order in which they were added.
    pub closed spec fn provided(&self) -> Seq<ProvidedFile> {
        self.provided_files@
    }

    /// Whether the graph keeps the promise of its type.
    pub open spec fn wf(&self) -> bool {
        distinct_executions(self.execs()) && distinct_provided(self.provided())
    }

    /// The identifiers of the supplied files, in their order.
    pub open spec fn provided_uuids(&self) -> Seq<FileUuid> {
        Seq::new(self.provided().len(), |i: int| self.provided()[i].spec_uuid())
    }

    /// A graph with no execution and no file.
    pub fn new() -> (dag: ExecutionDAGData)
        ensures
            dag.execs().len() == 0,
            dag.provided().len() == 0,
            dag.wf(),
    {
        ExecutionDAGData { executions: Vec::new(), provided_files: Vec::new() }
    }

    /// The executions of the graph.
    pub fn executions(&self) -> (execs: &Vec<Execution>)
        ensures
            execs@ == self.execs(),
            self.wf(),
    {
        proof {
            use_type_invariant(self);
        }
        &self.executions
    }

    /// The files that the client supplies.
    pub fn provided_files(&self) -> (files: &Vec<ProvidedFile>)
        ensures
            files@ == self.provided(),
            self.wf(),
    {
        proof {
            use_type_invariant(self);
        }
        &self.provided_files
    }

    /// Where the execution `uuid` stands in the graph.
    pub fn find_execution(&self, uuid: ExecutionUuid) -> (at: Option<usize>)
        ensures
            self.wf(),
            match at {
                Some(i) => i < self.execs().len() && self.execs()[i as int].uuid == uuid,
                None => forall|i: int| 0 <= i < self.execs().len() ==> self.execs()[i].uuid != uuid,
            },
    {
        proof {
            use_type_invariant(self);
        }
        let mut i: usize = 0;
        while i < self.executions.len()
            invariant
                self.wf(),
                i <= self.executions@.len(),
                forall|k: int| 0 <= k < i ==> self.executions@[k].uuid != uuid,
            decreases self.executions@.len() - i,
        {
            if self.executions[i].uuid == uuid {
                return Some(i);
            }
            i += 1;
        }
        None
    }

    /// Whether the client supplies the file `uuid`.
    pub fn provides(&self, uuid: FileUuid) -> (found: bool)
        ensures
            found == self.provided_uuids().contains(uuid),
    {
        let mut i: usize = 0;
        while i < self.provided_files.len()
            invariant
                i <= self.provided_files@.len(),
                forall|k: int| 0 <= k < i ==> self.provided_uuids()[k] != uuid,
            decreases self.provided_files@.len() - i,
        {
            if self.provided_files[i].uuid() == uuid {
                assert(self.provided_uuids()[i as int] == uuid);
                return true;
            }
            i += 1;
        }
        false
    }

    /// Adds an execution to the graph. An execution of the graph with the
    /// same identifier is replaced, and keeps its place.
    pub fn add_execution(&mut self, execution: Execution)
        ensures
            final(self).wf(),
            final(self).provided() == old(self).provided(),
            match position_of(old(self).execs(), execution.uuid) {
                Some(i) => final(self).execs() == old(self).execs().update(i, execution),
                None => final(self).execs() == old(self).execs().push(execution),
            },
    {
        proof {
            use_type_invariant(&*self);
        }
        match self.find_execution(execution.uuid) {
            Some(i) => {
                assert(position_of(self.execs(), execution.uuid) == Some(i as int));
                let mut execs: Vec<Execution> = Vec::new();
                std::mem::swap(&mut self.executions, &mut execs);
                execs[i] = execution;
                std::mem::swap(&mut self.executions, &mut execs);
            },
            None => {
                let mut execs: Vec<Execution> = Vec::new();
                std::mem::swap(&mut self.executions, &mut execs);
                execs.push(execution);
                std::mem::swap(&mut self.executions, &mut execs);
            },
        }
    }

    /// Adds a file that the client supplies. Returns `false`, and leaves
    /// the graph as it is, where the file is supplied already.
    pub fn provide_file(&mut self, file: ProvidedFile) -> (added: bool)
        ensures
            final(self).wf(),
            final(self).execs() == old(self).execs(),
            added == !old(self).provided_uuids().contains(file.spec_uuid()),
            added ==> final(self).provided() == old(self).provided().push(file),
            !added ==> final(self).provided() == old(self).provided(),
    {
        proof {
            use_type_invariant(&*self);
        }
        if self.provides(file.uuid()) {
            false
        } else {
            assert forall|k: int| 0 <= k < self.provided().len() implies (
            #[trigger] self.provided()[k]).spec_uuid() != file.spec_uuid() by {
                assert(self.provided_uuids()[k] == self.provided()[k].spec_uuid());
            }
            let mut files: Vec<ProvidedFile> = Vec::new();
            std::mem::swap(&mut self.provided_files, &mut files);
            files.push(file);
            std::mem::swap(&mut self.provided_files, &mut files);
            true
        }
    }
}

} // verus!
