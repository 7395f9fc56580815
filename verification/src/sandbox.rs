//! The sandbox of an execution: where its files lie, and how the
//! program that confines the process is called.

use crate::dag::{
    EnvVar, Execution, ExecutionCommand, ExecutionInput, ExecutionLimits, ExecutionOutput,
    FileUuid,
};
use crate::proto::ExecutionResourcesUsage;
use crate::text::{decimal, digit, write_decimal};
use vstd::prelude::*;
use vstd::string::{StrSliceExecFns, StringExecFns};

verus! {

/// The path of `part` under `base`: `part` itself where it starts at the
/// root or `base` is empty; else `base`, a separator unless `base` ends
/// with one, and `part`.
pub open spec fn joined_path(base: Seq<char>, part: Seq<char>) -> Seq<char> {
    if part.len() > 0 && part[0] == '/' {
        part
    } else if base.len() == 0 {
        part
    } else if base.last() == '/' {
        base + part
    } else {
        base + seq!['/'] + part
    }
}

/// The path of `part` under `base`.
pub fn join_path(base: &str, part: &str) -> (path: String)
    ensures
        path@ == joined_path(base@, part@),
{
    proof {
        reveal_strlit("/");
    }
    let part_len = part.unicode_len();
    if part_len > 0 && part.get_char(0) == '/' {
        return String::from_str(part);
    }
    let base_len = base.unicode_len();
    if base_len == 0 {
        return String::from_str(part);
    }
    let mut path = String::from_str(base);
    if base.get_char(base_len - 1) != '/' {
        path.append("/");
    }
    path.append(part);
    path
}

/// The texts of `strings`.
pub open spec fn texts(strings: Seq<String>) -> Seq<Seq<char>> {
    Seq::new(strings.len(), |i: int| strings[i]@)
}

/// A fraction of a second, `thousandths` thousandths of it, as the
/// digits behind the point, without zeros at the end.
pub open spec fn fraction_text(thousandths: nat) -> Seq<char> {
    if thousandths % 100 == 0 {
        seq![digit(thousandths / 100)]
    } else if thousandths % 10 == 0 {
        seq![digit(thousandths / 100), digit((thousandths / 10) % 10)]
    } else {
        seq![digit(thousandths / 100), digit((thousandths / 10) % 10), digit(thousandths % 10)]
    }
}

/// A time of `millis` milliseconds, in seconds: the whole seconds and,
/// where there is a fraction, a point and the fraction.
pub open spec fn seconds_text(millis: nat) -> Seq<char> {
    if millis % 1000 == 0 {
        decimal(millis / 1000)
    } else {
        decimal(millis / 1000) + seq!['.'] + fraction_text(millis % 1000)
    }
}

/// Writes a time of `millis` milliseconds in seconds.
pub fn write_seconds(millis: u128) -> (text: String)
    ensures
        text@ == seconds_text(millis as nat),
{
    proof {
        reveal_strlit(".");
    }
    let mut text = write_decimal(millis / 1000);
    let rest = millis % 1000;
    if rest != 0 {
        text.append(".");
        text.append(write_decimal(rest / 100).as_str());
        if rest % 100 != 0 {
            text.append(write_decimal((rest / 10) % 10).as_str());
            if rest % 10 != 0 {
                text.append(write_decimal(rest % 10).as_str());
            }
        }
        assert(text@ =~= seconds_text(millis as nat));
    }
    text
}

/// The time that the process may use on the processor, in
/// milliseconds: the sum of the limits that are set on the time in user
/// space and in kernel space, if any is.
pub open spec fn processor_limit(limits: &ExecutionLimits) -> Option<nat> {
    match (limits.cpu_time, limits.sys_time) {
        (Some(cpu), Some(sys)) => Some((cpu + sys) as nat),
        (Some(cpu), None) => Some(cpu as nat),
        (None, Some(sys)) => Some(sys as nat),
        (None, None) => None,
    }
}

/// The arguments for one of the three streams of the process: the flag
/// and the path of the file, or of the empty device where the stream is
/// not used.
pub open spec fn stream_args(flag: Seq<char>, used: bool, path: Seq<char>) -> Seq<Seq<char>> {
    seq![
        flag,
        if used {
            path
        } else {
            "/dev/null"@
        },
    ]
}

/// The arguments that add the variables `env` to the environment.
pub open spec fn env_args(env: Seq<EnvVar>) -> Seq<Seq<char>>
    decreases env.len(),
{
    if env.len() == 0 {
        Seq::empty()
    } else {
        env_args(env.drop_last()) + seq!["--env"@, env.last().name@ + "="@ + env.last().value@]
    }
}

/// The arguments that let the process read the directories `dirs`.
pub open spec fn dir_args(dirs: Seq<Seq<char>>) -> Seq<Seq<char>>
    decreases dirs.len(),
{
    if dirs.len() == 0 {
        Seq::empty()
    } else {
        dir_args(dirs.drop_last()) + seq!["--readable-dir"@, dirs.last()]
    }
}

/// The arguments that set the limits of `execution`: the time on the
/// processor and on the clock, each with the extra time of the
/// execution, the memory, and whether more than one process may run.
pub open spec fn limit_args(execution: &Execution) -> Seq<Seq<char>> {
    (match processor_limit(&execution.limits) {
        Some(time) => seq!["--time"@, seconds_text((time + execution.extra_time) as nat)],
        None => Seq::empty(),
    }) + (match execution.limits.wall_time {
        Some(wall) => seq!["--wall"@, seconds_text((wall + execution.extra_time) as nat)],
        None => Seq::empty(),
    }) + (match execution.limits.memory {
        Some(memory) => seq!["--memory"@, decimal(memory as nat)],
        None => Seq::empty(),
    }) + (if execution.limits.nproc == Some(1u32) {
        Seq::empty()
    } else {
        seq!["--multiprocess"@]
    })
}

/// The arguments with which the confining program is called for
/// `execution` in the sandbox at `boxdir`, with `readable` the
/// directories that the process may read and `program` the path of the
/// program to run.
pub open spec fn command_args(
    boxdir: Seq<char>,
    execution: &Execution,
    readable: Seq<Seq<char>>,
    program: Seq<char>,
) -> Seq<Seq<char>> {
    seq!["--directory"@, joined_path(boxdir, "box"@), "--json"@, "--env"@, "PATH"@] + stream_args(
        "--stdin"@,
        execution.stdin is Some,
        joined_path(boxdir, "stdin"@),
    ) + stream_args("--stdout"@, execution.stdout is Some, joined_path(boxdir, "stdout"@))
        + stream_args("--stderr"@, execution.stderr is Some, joined_path(boxdir, "stderr"@))
        + env_args(execution.env@) + limit_args(execution) + dir_args(readable) + (
    if execution.limits.mount_tmpfs {
        seq!["--mount-tmpfs"@]
    } else {
        Seq::empty()
    }) + seq!["--"@, program] + texts(execution.args@)
}

/// Appends to `args` the arguments for one of the three streams.
fn push_stream(args: &mut Vec<String>, flag: &str, used: bool, path: String)
    ensures
        texts(final(args)@) == texts(old(args)@) + stream_args(flag@, used, path@),
{
    args.push(String::from_str(flag));
    if used {
        args.push(path);
    } else {
        args.push(String::from_str("/dev/null"));
    }
    assert(texts(args@) =~= texts(old(args)@) + stream_args(flag@, used, path@));
}

/// Appends to `args` the arguments that add `env` to the environment.
fn push_env(args: &mut Vec<String>, env: &Vec<EnvVar>)
    ensures
        texts(final(args)@) == texts(old(args)@) + env_args(env@),
{
    let mut i: usize = 0;
    assert(env@.take(0) == Seq::<EnvVar>::empty());
    assert(texts(args@) =~= texts(old(args)@) + env_args(env@.take(0)));
    while i < env.len()
        invariant
            i <= env@.len(),
            texts(args@) == texts(old(args)@) + env_args(env@.take(i as int)),
        decreases env@.len() - i,
    {
        let ghost before = texts(args@);
        assert(env@.take(i + 1).drop_last() == env@.take(i as int));
        let mut pair = env[i].name.clone();
        pair.append("=");
        pair.append(env[i].value.as_str());
        args.push(String::from_str("--env"));
        args.push(pair);
        assert(texts(args@) =~= before + seq![
            "--env"@,
            env@[i as int].name@ + "="@ + env@[i as int].value@,
        ]);
        i += 1;
    }
    assert(env@.take(i as int) == env@);
}

/// Appends to `args` the arguments that let the process read `dirs`.
fn push_dirs(args: &mut Vec<String>, dirs: &Vec<String>)
    ensures
        texts(final(args)@) == texts(old(args)@) + dir_args(texts(dirs@)),
{
    let mut i: usize = 0;
    assert(texts(dirs@).take(0) == Seq::<Seq<char>>::empty());
    assert(texts(args@) =~= texts(old(args)@) + dir_args(texts(dirs@).take(0)));
    while i < dirs.len()
        invariant
            i <= dirs@.len(),
            texts(args@) == texts(old(args)@) + dir_args(texts(dirs@).take(i as int)),
        decreases dirs@.len() - i,
    {
        let ghost before = texts(args@);
        assert(texts(dirs@).take(i + 1).drop_last() == texts(dirs@).take(i as int));
        args.push(String::from_str("--readable-dir"));
        args.push(dirs[i].clone());
        assert(texts(args@) =~= before + seq!["--readable-dir"@, dirs@[i as int]@]);
        i += 1;
    }
    assert(texts(dirs@).take(i as int) == texts(dirs@));
}

/// Appends to `args` the arguments that set the limits of `execution`.
fn push_limits(args: &mut Vec<String>, execution: &Execution)
    ensures
        texts(final(args)@) == texts(old(args)@) + limit_args(execution),
{
    let ghost start = texts(args@);
    let extra: u128 = execution.extra_time as u128;
    let time: Option<u128> = match (execution.limits.cpu_time, execution.limits.sys_time) {
        (Some(cpu), Some(sys)) => Some(cpu as u128 + sys as u128),
        (Some(cpu), None) => Some(cpu as u128),
        (None, Some(sys)) => Some(sys as u128),
        (None, None) => None,
    };
    match time {
        Some(time) => {
            args.push(String::from_str("--time"));
            args.push(write_seconds(time + extra));
        },
        None => {},
    }
    let ghost first = match processor_limit(&execution.limits) {
        Some(time) => seq!["--time"@, seconds_text((time + execution.extra_time) as nat)],
        None => Seq::<Seq<char>>::empty(),
    };
    assert(texts(args@) =~= start + first);
    match execution.limits.wall_time {
        Some(wall) => {
            args.push(String::from_str("--wall"));
            args.push(write_seconds(wall as u128 + extra));
        },
        None => {},
    }
    let ghost second = match execution.limits.wall_time {
        Some(wall) => seq!["--wall"@, seconds_text((wall + execution.extra_time) as nat)],
        None => Seq::<Seq<char>>::empty(),
    };
    assert(texts(args@) =~= start + first + second);
    match execution.limits.memory {
        Some(memory) => {
            args.push(String::from_str("--memory"));
            args.push(write_decimal(memory as u128));
        },
        None => {},
    }
    let ghost third = match execution.limits.memory {
        Some(memory) => seq!["--memory"@, decimal(memory as nat)],
        None => Seq::<Seq<char>>::empty(),
    };
    assert(texts(args@) =~= start + first + second + third);
    let single = match execution.limits.nproc {
        Some(count) => count == 1,
        None => false,
    };
    if !single {
        args.push(String::from_str("--multiprocess"));
    }
    let ghost fourth = if execution.limits.nproc == Some(1u32) {
        Seq::<Seq<char>>::empty()
    } else {
        seq!["--multiprocess"@]
    };
    assert(texts(args@) =~= start + first + second + third + fourth);
    assert(limit_args(execution) =~= first + second + third + fourth);
    assert(start + first + second + third + fourth =~= start + (first + second + third + fourth));
}

/// The arguments with which the confining program is called for
/// `execution` in the sandbox at `boxdir`, with `readable` the
/// directories that the process may read and `program` the path of the
/// program to run.
pub fn command_line(
    boxdir: &str,
    execution: &Execution,
    readable: &Vec<String>,
    program: String,
) -> (args: Vec<String>)
    ensures
        texts(args@) == command_args(boxdir@, execution, texts(readable@), program@),
{
    let mut args: Vec<String> = Vec::new();
    args.push(String::from_str("--directory"));
    args.push(join_path(boxdir, "box"));
    args.push(String::from_str("--json"));
    args.push(String::from_str("--env"));
    args.push(String::from_str("PATH"));
    let ghost head = seq![
        "--directory"@,
        joined_path(boxdir@, "box"@),
        "--json"@,
        "--env"@,
        "PATH"@,
    ];
    assert(texts(args@) =~= head);
    push_stream(&mut args, "--stdin", execution.stdin.is_some(), join_path(boxdir, "stdin"));
    push_stream(&mut args, "--stdout", execution.stdout.is_some(), join_path(boxdir, "stdout"));
    push_stream(&mut args, "--stderr", execution.stderr.is_some(), join_path(boxdir, "stderr"));
    push_env(&mut args, &execution.env);
    push_limits(&mut args, execution);
    push_dirs(&mut args, readable);
    let ghost before = texts(args@);
    if execution.limits.mount_tmpfs {
        args.push(String::from_str("--mount-tmpfs"));
    }
    let ghost tmpfs = if execution.limits.mount_tmpfs {
        seq!["--mount-tmpfs"@]
    } else {
        Seq::<Seq<char>>::empty()
    };
    assert(texts(args@) =~= before + tmpfs);
    args.push(String::from_str("--"));
    let ghost name = program@;
    args.push(program);
    assert(texts(args@) =~= before + tmpfs + seq!["--"@, name]);
    let ghost so_far = texts(args@);
    let mut i: usize = 0;
    assert(texts(execution.args@).take(0) == Seq::<Seq<char>>::empty());
    assert(texts(args@) =~= so_far + texts(execution.args@).take(0));
    while i < execution.args.len()
        invariant
            i <= execution.args@.len(),
            texts(args@) == so_far + texts(execution.args@).take(i as int),
        decreases execution.args@.len() - i,
    {
        let ghost before = texts(args@);
        let arg = execution.args[i].clone();
        args.push(arg);
        assert(texts(args@) =~= before.push(execution.args@[i as int]@));
        assert(texts(execution.args@).take(i + 1) =~= texts(execution.args@).take(i as int).push(
            execution.args@[i as int]@,
        ));
        assert(texts(args@) =~= so_far + texts(execution.args@).take(i + 1));
        i += 1;
    }
    assert(texts(execution.args@).take(i as int) == texts(execution.args@));
    args
}

/// The directories of the system that a process may read, where they
/// exist.
pub open spec fn system_dirs() -> Seq<Seq<char>> {
    seq![
        "/lib"@,
        "/lib64"@,
        "/usr"@,
        "/bin"@,
        "/opt"@,
        "/etc/alternatives/"@,
        "/var/lib/dpkg/alternatives/"@,
    ]
}

/// The directories that the process of `execution` may read, where they
/// exist: those of the system, then those that the execution names.
pub open spec fn candidate_dirs(execution: &Execution) -> Seq<Seq<char>> {
    system_dirs() + texts(execution.limits.extra_readable_dirs@)
}

/// Those of `candidates` that `present` marks, in their order.
pub open spec fn picked(candidates: Seq<Seq<char>>, present: Seq<bool>) -> Seq<Seq<char>>
    decreases candidates.len(),
{
    if candidates.len() == 0 {
        Seq::empty()
    } else if present.len() >= candidates.len() && present[candidates.len() - 1] {
        picked(candidates.drop_last(), present).push(candidates.last())
    } else {
        picked(candidates.drop_last(), present)
    }
}

/// The text `text` as `Debug` writes a string: between double quotes,
/// with the characters that cannot stand there as they are written as
/// escapes.
pub uninterp spec fn debug_text(text: Seq<char>) -> Seq<char>;

/// The text `text` between double quotes, with escapes.
///
/// Formats `text` with `{:?}`, that is with the `Debug` impl of `str`
/// in std. What it writes depends on the characters of the text alone;
/// the contract gives it its name and claims nothing more of it.
#[verifier::external_body]
fn quoted(text: &str) -> (written: String)
    ensures
        written@ == debug_text(text@),
{
    format!("{:?}", text)
}

/// The arguments `args`, each between double quotes, with a blank
/// between one and the next.
pub open spec fn quoted_args(args: Seq<Seq<char>>) -> Seq<char>
    decreases args.len(),
{
    if args.len() == 0 {
        Seq::empty()
    } else if args.len() == 1 {
        debug_text(args[0])
    } else {
        quoted_args(args.drop_last()) + " "@ + debug_text(args.last())
    }
}

/// The line that says how the confining program is called with the
/// arguments `args`: the name of the program and the arguments, each
/// between double quotes.
pub open spec fn command_text(args: Seq<Seq<char>>) -> Seq<char> {
    "tmbox "@ + quoted_args(args) + "\n"@
}

/// The line that says how the confining program is called with the
/// arguments `args`, as it is kept beside a sandbox that stays.
pub fn command_note(args: &Vec<String>) -> (line: String)
    ensures
        line@ == command_text(texts(args@)),
{
    let mut line = String::from_str("tmbox ");
    let mut i: usize = 0;
    assert(texts(args@).take(0) == Seq::<Seq<char>>::empty());
    assert(line@ =~= "tmbox "@ + quoted_args(texts(args@).take(0)));
    while i < args.len()
        invariant
            i <= args@.len(),
            line@ == "tmbox "@ + quoted_args(texts(args@).take(i as int)),
        decreases args@.len() - i,
    {
        let ghost before = line@;
        let ghost done = texts(args@).take(i as int);
        let ghost next = texts(args@).take(i + 1);
        proof {
            assert(next.drop_last() == done);
            assert(next.last() == args@[i as int]@);
        }
        if i > 0 {
            line.append(" ");
        }
        let written = quoted(args[i].as_str());
        line.append(written.as_str());
        proof {
            if i == 0 {
                assert(next[0] == args@[0]@);
                assert(line@ =~= "tmbox "@ + quoted_args(next));
            } else {
                assert(line@ =~= "tmbox "@ + (quoted_args(done) + " "@ + debug_text(next.last())));
            }
        }
        i += 1;
    }
    assert(texts(args@).take(i as int) == texts(args@));
    line.append("\n");
    line
}

/// The text that says that the program `name` was not found: the name
/// stands in it between double quotes.
pub open spec fn not_found_text(name: Seq<char>) -> Seq<char> {
    "Executable "@ + debug_text(name) + " not found"@
}

/// The arguments with which the confining program is called for
/// `execution` in the sandbox at `boxdir`, where `present` marks the
/// candidate directories that exist and `found` is the path at which
/// the program was found, if it was looked for and found; or why there
/// are none: a program of the system was not found.
pub open spec fn command_outcome(
    boxdir: Seq<char>,
    execution: &Execution,
    present: Seq<bool>,
    found: Option<Seq<char>>,
) -> Result<Seq<Seq<char>>, Seq<char>> {
    let readable = picked(candidate_dirs(execution), present);
    match execution.command {
        ExecutionCommand::System(name) => match found {
            Some(program) => Ok(command_args(boxdir, execution, readable, program)),
            None => Err(not_found_text(name@)),
        },
        ExecutionCommand::Local(path) => Ok(command_args(boxdir, execution, readable, path@)),
    }
}

/// The text of an optional string.
pub open spec fn view_of(text: Option<String>) -> Option<Seq<char>> {
    match text {
        Some(text) => Some(text@),
        None => None,
    }
}

/// Whether `result` is `outcome`, text for text.
pub open spec fn same_outcome(
    result: Result<Vec<String>, String>,
    outcome: Result<Seq<Seq<char>>, Seq<char>>,
) -> bool {
    match result {
        Ok(args) => outcome == Ok::<Seq<Seq<char>>, Seq<char>>(texts(args@)),
        Err(message) => outcome == Err::<Seq<Seq<char>>, Seq<char>>(message@),
    }
}

/// The path at which the program `name` is found in the search path.
///
/// Calls `which::which`, which looks at the environment and at the disk:
/// nothing is promised of what it finds.
#[verifier::external_body]
fn find_in_path(name: &str) -> (found: Option<String>) {
    match which::which(name) {
        Ok(path) => Some(path.to_string_lossy().into_owned()),
        Err(_) => None,
    }
}

/// Whether a directory lies at `path`.
///
/// Calls `Path::is_dir` of std, which looks at the disk: nothing is
/// promised of what it finds.
#[verifier::external_body]
fn is_directory(path: &str) -> (yes: bool) {
    std::path::Path::new(path).is_dir()
}

/// The candidate directories of `execution`.
fn list_candidates(execution: &Execution) -> (dirs: Vec<String>)
    ensures
        texts(dirs@) == candidate_dirs(execution),
{
    let mut dirs: Vec<String> = Vec::new();
    dirs.push(String::from_str("/lib"));
    dirs.push(String::from_str("/lib64"));
    dirs.push(String::from_str("/usr"));
    dirs.push(String::from_str("/bin"));
    dirs.push(String::from_str("/opt"));
    dirs.push(String::from_str("/etc/alternatives/"));
    dirs.push(String::from_str("/var/lib/dpkg/alternatives/"));
    assert(texts(dirs@) =~= system_dirs());
    let extra = &execution.limits.extra_readable_dirs;
    let mut i: usize = 0;
    assert(texts(extra@).take(0) == Seq::<Seq<char>>::empty());
    assert(texts(dirs@) =~= system_dirs() + texts(extra@).take(0));
    while i < extra.len()
        invariant
            i <= extra@.len(),
            texts(dirs@) == system_dirs() + texts(extra@).take(i as int),
        decreases extra@.len() - i,
    {
        let ghost before = texts(dirs@);
        let dir = extra[i].clone();
        dirs.push(dir);
        assert(texts(dirs@) =~= before.push(extra@[i as int]@));
        assert(texts(extra@).take(i + 1) =~= texts(extra@).take(i as int).push(extra@[i as int]@));
        i += 1;
    }
    assert(texts(extra@).take(i as int) == texts(extra@));
    dirs
}

/// Those of `candidates` that `present` marks.
fn pick(candidates: &Vec<String>, present: &Vec<bool>) -> (dirs: Vec<String>)
    ensures
        texts(dirs@) == picked(texts(candidates@), present@),
{
    let mut dirs: Vec<String> = Vec::new();
    let mut i: usize = 0;
    let ghost all = texts(candidates@);
    assert(all.take(0) == Seq::<Seq<char>>::empty());
    assert(texts(dirs@) =~= picked(all.take(0), present@));
    while i < candidates.len()
        invariant
            i <= candidates@.len(),
            all == texts(candidates@),
            texts(dirs@) == picked(all.take(i as int), present@),
        decreases candidates@.len() - i,
    {
        let ghost before = texts(dirs@);
        assert(all.take(i + 1).drop_last() == all.take(i as int));
        assert(all.take(i + 1).last() == candidates@[i as int]@);
        if i < present.len() && present[i] {
            let dir = candidates[i].clone();
            dirs.push(dir);
            assert(texts(dirs@) =~= before.push(candidates@[i as int]@));
        }
        i += 1;
    }
    assert(all.take(i as int) == all);
    dirs
}

/// A sandbox: the directory in which an execution runs.
#[derive(Debug)]
pub struct Sandbox {
    /// The path of the directory.
    pub boxdir: String,
    /// The execution.
    pub execution: Execution,
    /// Whether the directory stays when the sandbox is done with.
    pub keep_sandbox: bool,
}

/// What is to become of the directory of a sandbox that is done with.
#[derive(Clone, Copy, Debug, PartialEq, Eq, Structural)]
pub enum CleanUp {
    /// Leave it, with a description of the execution and the command
    /// line beside it.
    Keep,
    /// Make it writable again and remove it with all that is in it.
    Remove,
}

impl Sandbox {
    /// A sandbox for `execution` in the directory `boxdir`, to be removed
    /// when it is done with.
    pub fn new(boxdir: String, execution: &Execution) -> (sandbox: Sandbox)
        ensures
            sandbox.boxdir == boxdir,
            sandbox.execution.same(execution),
            !sandbox.keep_sandbox,
    {
        Sandbox { boxdir, execution: execution.duplicate(), keep_sandbox: false }
    }

    /// Lets the directory stay when the sandbox is done with.
    pub fn keep(&mut self)
        ensures
            final(self).keep_sandbox,
            final(self).boxdir == old(self).boxdir,
            final(self).execution == old(self).execution,
    {
        self.keep_sandbox = true;
    }

    /// What is to become of the directory when the sandbox is done with.
    pub fn clean_up(&self) -> (what: CleanUp)
        ensures
            what == if self.keep_sandbox {
                CleanUp::Keep
            } else {
                CleanUp::Remove
            },
    {
        if self.keep_sandbox {
            CleanUp::Keep
        } else {
            CleanUp::Remove
        }
    }

    /// The path of the file that takes the standard output.
    pub fn stdout_path(&self) -> (path: String)
        ensures
            path@ == joined_path(self.boxdir@, "stdout"@),
    {
        join_path(self.boxdir.as_str(), "stdout")
    }

    /// The path of the file that takes the standard error.
    pub fn stderr_path(&self) -> (path: String)
        ensures
            path@ == joined_path(self.boxdir@, "stderr"@),
    {
        join_path(self.boxdir.as_str(), "stderr")
    }

    /// The path of the output file that the process writes at `output`.
    pub fn output_path(&self, output: &str) -> (path: String)
        ensures
            path@ == joined_path(joined_path(self.boxdir@, "box"@), output@),
    {
        let inner = join_path(self.boxdir.as_str(), "box");
        join_path(inner.as_str(), output)
    }

    /// The arguments with which the confining program is called, where
    /// `present` marks the candidate directories that exist and `found`
    /// is the path at which a program of the system was found; or why
    /// there are none.
    pub fn build_command_with(&self, present: &Vec<bool>, found: Option<String>) -> (result:
        Result<Vec<String>, String>)
        ensures
            same_outcome(
                result,
                command_outcome(self.boxdir@, &self.execution, present@, view_of(found)),
            ),
    {
        let candidates = list_candidates(&self.execution);
        let readable = pick(&candidates, present);
        match &self.execution.command {
            ExecutionCommand::System(name) => match found {
                Some(program) => Ok(
                    command_line(self.boxdir.as_str(), &self.execution, &readable, program),
                ),
                None => {
                    let mut message = String::from_str("Executable ");
                    let written = quoted(name.as_str());
                    message.append(written.as_str());
                    message.append(" not found");
                    Err(message)
                },
            },
            ExecutionCommand::Local(path) => Ok(
                command_line(self.boxdir.as_str(), &self.execution, &readable, path.clone()),
            ),
        }
    }

    /// The arguments with which the confining program is called; or why
    /// there are none: the program, one of the system, was not found.
    /// The directories that the process may read are those of the
    /// candidates that exist now, and a program of the system is looked
    /// for in the search path.
    pub fn build_command(&self) -> (result: Result<Vec<String>, String>)
        ensures
            exists|present: Seq<bool>, found: Option<Seq<char>>| #[trigger]
                same_outcome(
                    result,
                    command_outcome(self.boxdir@, &self.execution, present, found),
                ),
    {
        let candidates = list_candidates(&self.execution);
        let mut present: Vec<bool> = Vec::new();
        let mut i: usize = 0;
        while i < candidates.len()
            invariant
                i <= candidates@.len(),
            decreases candidates@.len() - i,
        {
            present.push(is_directory(candidates[i].as_str()));
            i += 1;
        }
        let found = match &self.execution.command {
            ExecutionCommand::System(name) => find_in_path(name.as_str()),
            ExecutionCommand::Local(_) => None,
        };
        let ghost looked = view_of(found);
        let result = self.build_command_with(&present, found);
        assert(same_outcome(
            result,
            command_outcome(self.boxdir@, &self.execution, present@, looked),
        ));
        result
    }

    /// Whether `start` is what is to be done where building the command
    /// gave `outcome`: the confining program is started with the
    /// arguments; or, where there are none, no process is started, and
    /// the run has failed with the reason as its text.
    pub open spec fn starts_or_fails(
        start: Result<Vec<String>, SandboxResult>,
        outcome: Result<Seq<Seq<char>>, Seq<char>>,
    ) -> bool {
        match outcome {
            Ok(args) => start matches Ok(command) && texts(command@) == args,
            Err(text) => start matches Err(SandboxResult::Failed { error }) && error@ == text,
        }
    }

    /// What is to be done where building the command gave `built`.
    pub fn start_or_failure(built: Result<Vec<String>, String>) -> (start: Result<
        Vec<String>,
        SandboxResult,
    >)
        ensures
            match built {
                Ok(args) => start matches Ok(command) && command == args,
                Err(text) => start matches Err(SandboxResult::Failed { error }) && error == text,
            },
    {
        match built {
            Ok(args) => Ok(args),
            Err(error) => Err(SandboxResult::Failed { error }),
        }
    }

    /// The arguments with which the confining program is to be started;
    /// or, where the command cannot be built, the failure that is the
    /// result of the run: no process is started then.
    pub fn command_or_failure(&self) -> (start: Result<Vec<String>, SandboxResult>)
        ensures
            exists|present: Seq<bool>, found: Option<Seq<char>>| #[trigger]
                Sandbox::starts_or_fails(
                    start,
                    command_outcome(self.boxdir@, &self.execution, present, found),
                ),
    {
        let built = self.build_command();
        let ghost (present, found) = choose|present: Seq<bool>, found: Option<Seq<char>>| #[trigger]
            same_outcome(built, command_outcome(self.boxdir@, &self.execution, present, found));
        let start = Sandbox::start_or_failure(built);
        assert(Sandbox::starts_or_fails(
            start,
            command_outcome(self.boxdir@, &self.execution, present, found),
        ));
        start
    }
}

/// Where the content of a file lies on the disk.
#[derive(Clone, Debug)]
pub struct DepPath {
    /// The file.
    pub file: FileUuid,
    /// The path of its content.
    pub path: String,
}

/// One thing to do to the directory of a sandbox before the process
/// runs.
#[derive(Clone, Debug)]
pub enum SetupStep {
    /// Make a directory, and those above it.
    CreateDir(String),
    /// Copy a file, and give the copy a mode.
    Copy {
        /// The file to copy.
        source: String,
        /// Where the copy goes.
        dest: String,
        /// The mode of the copy.
        mode: u32,
    },
    /// Make an empty file with a mode.
    Touch {
        /// The path of the file.
        path: String,
        /// The mode of the file.
        mode: u32,
    },
    /// Give a mode to what lies at a path.
    SetPermissions {
        /// The path.
        path: String,
        /// The mode.
        mode: u32,
    },
}

/// A step of the setup, with its paths as sequences of characters.
pub enum StepView {
    /// Make a directory, and those above it.
    CreateDir(Seq<char>),
    /// Copy a file, and give the copy a mode.
    Copy {
        /// The file to copy.
        source: Seq<char>,
        /// Where the copy goes.
        dest: Seq<char>,
        /// The mode of the copy.
        mode: u32,
    },
    /// Make an empty file with a mode.
    Touch {
        /// The path of the file.
        path: Seq<char>,
        /// The mode of the file.
        mode: u32,
    },
    /// Give a mode to what lies at a path.
    SetPermissions {
        /// The path.
        path: Seq<char>,
        /// The mode.
        mode: u32,
    },
}

impl View for SetupStep {
    type V = StepView;

    open spec fn view(&self) -> StepView {
        match self {
            SetupStep::CreateDir(path) => StepView::CreateDir(path@),
            SetupStep::Copy { source, dest, mode } => StepView::Copy {
                source: source@,
                dest: dest@,
                mode: *mode,
            },
            SetupStep::Touch { path, mode } => StepView::Touch { path: path@, mode: *mode },
            SetupStep::SetPermissions { path, mode } => StepView::SetPermissions {
                path: path@,
                mode: *mode,
            },
        }
    }
}

/// The steps of `steps`, each by its view.
pub open spec fn step_views(steps: Seq<SetupStep>) -> Seq<StepView> {
    Seq::new(steps.len(), |i: int| steps[i]@)
}

/// The mode of a file that the process may only read.
pub const MODE_READ: u32 = 0o400;

/// The mode of a file that the process may read and run, and of a
/// directory that it may not write to.
pub const MODE_READ_RUN: u32 = 0o500;

/// The mode of a file that the process may write to.
pub const MODE_WRITE: u32 = 0o600;

/// The path of the content of `file` according to `deps`: that of the
/// last entry about the file.
pub open spec fn path_of(deps: Seq<DepPath>, file: FileUuid) -> Option<Seq<char>>
    decreases deps.len(),
{
    if deps.len() == 0 {
        None
    } else if deps.last().file == file {
        Some(deps.last().path@)
    } else {
        path_of(deps.drop_last(), file)
    }
}

/// The first of `files` whose content has no path in `deps`.
pub open spec fn first_without_path(files: Seq<FileUuid>, deps: Seq<DepPath>) -> Option<FileUuid>
    decreases files.len(),
{
    if files.len() == 0 {
        None
    } else if first_without_path(files.drop_last(), deps) is Some {
        first_without_path(files.drop_last(), deps)
    } else if path_of(deps, files.last()) is None {
        Some(files.last())
    } else {
        None
    }
}

/// The steps that put the input files `inputs` in the directory `inner`
/// of the process: each is copied to its place and may be read, and run
/// where it is executable.
pub open spec fn input_steps(inner: Seq<char>, inputs: Seq<ExecutionInput>, deps: Seq<DepPath>) -> Seq<
    StepView,
>
    decreases inputs.len(),
{
    if inputs.len() == 0 {
        Seq::empty()
    } else {
        input_steps(inner, inputs.drop_last(), deps).push(
            StepView::Copy {
                source: path_of(deps, inputs.last().file).unwrap(),
                dest: joined_path(inner, inputs.last().path@),
                mode: if inputs.last().executable {
                    MODE_READ_RUN
                } else {
                    MODE_READ
                },
            },
        )
    }
}

/// The steps that make the output files `outputs` in the directory
/// `inner` of the process: each is made empty, and may be written to.
pub open spec fn output_steps(inner: Seq<char>, outputs: Seq<ExecutionOutput>) -> Seq<StepView>
    decreases outputs.len(),
{
    if outputs.len() == 0 {
        Seq::empty()
    } else {
        output_steps(inner, outputs.drop_last()).push(
            StepView::Touch { path: joined_path(inner, outputs.last().path@), mode: MODE_WRITE },
        )
    }
}

/// The steps that make the sandbox at `boxdir` ready for `execution`,
/// where `deps` says where the files lie that the execution needs: the
/// directory of the process is made; the standard input is copied; the
/// files for the standard output and error are made; the inputs are
/// copied; the outputs are made; and the directory of the process is
/// closed to writing where the execution asks for that.
pub open spec fn setup_steps(boxdir: Seq<char>, execution: &Execution, deps: Seq<DepPath>) -> Seq<
    StepView,
> {
    let inner = joined_path(boxdir, "box"@);
    seq![StepView::CreateDir(inner)] + (match execution.stdin {
        Some(stdin) => seq![
            StepView::Copy {
                source: path_of(deps, stdin).unwrap(),
                dest: joined_path(boxdir, "stdin"@),
                mode: MODE_READ,
            },
        ],
        None => Seq::empty(),
    }) + (if execution.stdout is Some {
        seq![StepView::Touch { path: joined_path(boxdir, "stdout"@), mode: MODE_WRITE }]
    } else {
        Seq::empty()
    }) + (if execution.stderr is Some {
        seq![StepView::Touch { path: joined_path(boxdir, "stderr"@), mode: MODE_WRITE }]
    } else {
        Seq::empty()
    }) + input_steps(inner, execution.inputs@, deps) + output_steps(inner, execution.outputs@) + (
    if execution.limits.read_only {
        seq![StepView::SetPermissions { path: inner, mode: MODE_READ_RUN }]
    } else {
        Seq::empty()
    })
}

/// The path of the content of `file` according to `deps`.
pub fn find_path(deps: &Vec<DepPath>, file: FileUuid) -> (path: Option<String>)
    ensures
        view_of(path) == path_of(deps@, file),
{
    let mut path: Option<String> = None;
    let mut i: usize = 0;
    assert(deps@.take(0) == Seq::<DepPath>::empty());
    while i < deps.len()
        invariant
            i <= deps@.len(),
            view_of(path) == path_of(deps@.take(i as int), file),
        decreases deps@.len() - i,
    {
        assert(deps@.take(i + 1).drop_last() == deps@.take(i as int));
        if deps[i].file == file {
            path = Some(deps[i].path.clone());
        }
        i += 1;
    }
    assert(deps@.take(i as int) == deps@);
    path
}

/// Where the first of `files` has no path, no longer list has all.
proof fn lemma_first_without_path(files: Seq<FileUuid>, deps: Seq<DepPath>, n: int)
    requires
        0 <= n <= files.len(),
        first_without_path(files.take(n), deps) is Some,
    ensures
        first_without_path(files, deps) == first_without_path(files.take(n), deps),
    decreases files.len() - n,
{
    if n < files.len() {
        assert(files.take(n + 1).drop_last() == files.take(n));
        lemma_first_without_path(files, deps, n + 1);
    } else {
        assert(files.take(n) == files);
    }
}

/// Every file of a list of which none is without a path has one.
proof fn lemma_all_with_path(files: Seq<FileUuid>, deps: Seq<DepPath>)
    requires
        first_without_path(files, deps) is None,
    ensures
        forall|k: int| 0 <= k < files.len() ==> path_of(deps, #[trigger] files[k]) is Some,
    decreases files.len(),
{
    if files.len() > 0 {
        lemma_all_with_path(files.drop_last(), deps);
        assert forall|k: int| 0 <= k < files.len() implies path_of(
            deps,
            #[trigger] files[k],
        ) is Some by {
            if k < files.len() - 1 {
                assert(files.drop_last()[k] == files[k]);
            }
        }
    }
}

impl Sandbox {
    /// The steps that make the sandbox ready, where `deps` says where
    /// the files lie that the execution needs; or the first file, in the
    /// order of the dependencies, of which `deps` does not say it.
    pub fn setup(&self, deps: &Vec<DepPath>) -> (plan: Result<Vec<SetupStep>, FileUuid>)
        ensures
            match plan {
                Ok(steps) => first_without_path(self.execution.needs(), deps@) is None
                    && step_views(steps@) == setup_steps(self.boxdir@, &self.execution, deps@),
                Err(file) => first_without_path(self.execution.needs(), deps@) == Some(file),
            },
    {
        let needs = self.execution.dependencies();
        let mut k: usize = 0;
        assert(needs@.take(0) == Seq::<FileUuid>::empty());
        while k < needs.len()
            invariant
                k <= needs@.len(),
                needs@ == self.execution.needs(),
                first_without_path(needs@.take(k as int), deps@) is None,
            decreases needs@.len() - k,
        {
            assert(needs@.take(k + 1).drop_last() == needs@.take(k as int));
            if find_path(deps, needs[k]).is_none() {
                proof {
                    lemma_first_without_path(needs@, deps@, k + 1);
                }
                return Err(needs[k]);
            }
            k += 1;
        }
        proof {
            assert(needs@.take(k as int) == needs@);
            lemma_all_with_path(needs@, deps@);
        }
        let boxdir = self.boxdir.as_str();
        let inner = join_path(boxdir, "box");
        let mut steps: Vec<SetupStep> = Vec::new();
        steps.push(SetupStep::CreateDir(inner.clone()));
        let ghost first = seq![StepView::CreateDir(inner@)];
        assert(step_views(steps@) =~= first);
        match self.execution.stdin {
            Some(stdin) => {
                assert(needs@[0] == stdin);
                let source = find_path(deps, stdin);
                steps.push(
                    SetupStep::Copy {
                        source: source.unwrap(),
                        dest: join_path(boxdir, "stdin"),
                        mode: MODE_READ,
                    },
                );
            },
            None => {},
        }
        let ghost second = match self.execution.stdin {
            Some(stdin) => seq![
                StepView::Copy {
                    source: path_of(deps@, stdin).unwrap(),
                    dest: joined_path(boxdir@, "stdin"@),
                    mode: MODE_READ,
                },
            ],
            None => Seq::<StepView>::empty(),
        };
        assert(step_views(steps@) =~= first + second);
        if self.execution.stdout.is_some() {
            steps.push(SetupStep::Touch { path: join_path(boxdir, "stdout"), mode: MODE_WRITE });
        }
        let ghost third = if self.execution.stdout is Some {
            seq![StepView::Touch { path: joined_path(boxdir@, "stdout"@), mode: MODE_WRITE }]
        } else {
            Seq::<StepView>::empty()
        };
        assert(step_views(steps@) =~= first + second + third);
        if self.execution.stderr.is_some() {
            steps.push(SetupStep::Touch { path: join_path(boxdir, "stderr"), mode: MODE_WRITE });
        }
        let ghost fourth = if self.execution.stderr is Some {
            seq![StepView::Touch { path: joined_path(boxdir@, "stderr"@), mode: MODE_WRITE }]
        } else {
            Seq::<StepView>::empty()
        };
        assert(step_views(steps@) =~= first + second + third + fourth);
        let ghost head = step_views(steps@);
        let inputs = &self.execution.inputs;
        let mut i: usize = 0;
        assert(inputs@.take(0) == Seq::<ExecutionInput>::empty());
        assert(step_views(steps@) =~= head + input_steps(inner@, inputs@.take(0), deps@));
        while i < inputs.len()
            invariant
                i <= inputs@.len(),
                inputs@ == self.execution.inputs@,
                inner@ == joined_path(boxdir@, "box"@),
                forall|k: int| 0 <= k < needs@.len() ==> path_of(deps@, #[trigger] needs@[k]) is Some,
                needs@ == self.execution.needs(),
                step_views(steps@) == head + input_steps(inner@, inputs@.take(i as int), deps@),
            decreases inputs@.len() - i,
        {
            let ghost before = step_views(steps@);
            assert(inputs@.take(i + 1).drop_last() == inputs@.take(i as int));
            let input = &inputs[i];
            proof {
                let at = crate::dag::optional_file(self.execution.stdin).len() + i;
                assert(needs@[at] == self.execution.input_files()[i as int]);
                assert(path_of(deps@, needs@[at]) is Some);
            }
            let source = find_path(deps, input.file);
            let mode = if input.executable {
                MODE_READ_RUN
            } else {
                MODE_READ
            };
            let step = SetupStep::Copy {
                source: source.unwrap(),
                dest: join_path(inner.as_str(), input.path.as_str()),
                mode,
            };
            let ghost view = step@;
            steps.push(step);
            assert(step_views(steps@) =~= before.push(view));
            i += 1;
        }
        assert(inputs@.take(i as int) == inputs@);
        let ghost body = step_views(steps@);
        let outputs = &self.execution.outputs;
        let mut i: usize = 0;
        assert(outputs@.take(0) == Seq::<ExecutionOutput>::empty());
        assert(step_views(steps@) =~= body + output_steps(inner@, outputs@.take(0)));
        while i < outputs.len()
            invariant
                i <= outputs@.len(),
                outputs@ == self.execution.outputs@,
                step_views(steps@) == body + output_steps(inner@, outputs@.take(i as int)),
            decreases outputs@.len() - i,
        {
            let ghost before = step_views(steps@);
            assert(outputs@.take(i + 1).drop_last() == outputs@.take(i as int));
            let step = SetupStep::Touch {
                path: join_path(inner.as_str(), outputs[i].path.as_str()),
                mode: MODE_WRITE,
            };
            let ghost view = step@;
            steps.push(step);
            assert(step_views(steps@) =~= before.push(view));
            i += 1;
        }
        assert(outputs@.take(i as int) == outputs@);
        let ghost most = step_views(steps@);
        if self.execution.limits.read_only {
            steps.push(SetupStep::SetPermissions { path: inner, mode: MODE_READ_RUN });
        }
        let ghost last = if self.execution.limits.read_only {
            seq![StepView::SetPermissions { path: joined_path(boxdir@, "box"@), mode: MODE_READ_RUN }]
        } else {
            Seq::<StepView>::empty()
        };
        assert(step_views(steps@) =~= most + last);
        Ok(steps)
    }
}

/// What the confining program printed when it ended. Times are in
/// microseconds, memory in KiB.
#[derive(Clone, Debug)]
pub struct TMBoxResult {
    /// Whether the program could not run the process.
    pub error: bool,
    /// Why it could not.
    pub message: Option<String>,
    /// The time that the process spent in user space.
    pub cpu_time: Option<u64>,
    /// The time that the process spent in kernel space.
    pub sys_time: Option<u64>,
    /// The time that the process took on the clock.
    pub wall_time: Option<u64>,
    /// The peak of the memory that the process used.
    pub memory_usage: Option<u64>,
    /// The status with which the process ended.
    pub status_code: Option<u32>,
    /// The signal that stopped the process, or zero.
    pub signal: Option<u32>,
    /// Whether the program stopped the process.
    pub killed_by_sandbox: Option<bool>,
}

/// How the run of a sandbox ended.
#[derive(Clone, Debug)]
pub enum SandboxResult {
    /// The process ran.
    Success {
        /// The status with which it ended.
        exit_status: u32,
        /// The signal that stopped it, if one did.
        signal: Option<u32>,
        /// What it used.
        resources: ExecutionResourcesUsage,
        /// Whether the confining program stopped it.
        was_killed: bool,
    },
    /// The process could not be run.
    Failed {
        /// Why.
        error: String,
    },
}

impl TMBoxResult {
    /// Whether nothing is missing: where the process ran, every figure
    /// is there.
    pub open spec fn whole(&self) -> bool {
        !self.error ==> self.cpu_time is Some && self.sys_time is Some && self.wall_time is Some
            && self.memory_usage is Some && self.status_code is Some && self.signal is Some
            && self.killed_by_sandbox is Some
    }

    /// Whether nothing is missing.
    #[verifier::when_used_as_spec(whole)]
    pub fn is_whole(&self) -> (yes: bool)
        ensures
            yes == self.whole(),
    {
        self.error || (self.cpu_time.is_some() && self.sys_time.is_some()
            && self.wall_time.is_some() && self.memory_usage.is_some()
            && self.status_code.is_some() && self.signal.is_some()
            && self.killed_by_sandbox.is_some())
    }
}

impl Sandbox {
    /// Whether `result` says what `outcome`, printed by the confining
    /// program, says: where the program could not run the process, the
    /// failure with its message, or with a message that says that there
    /// is none; else the figures of the run, with no signal where the
    /// program printed zero.
    pub open spec fn reads(outcome: &TMBoxResult, result: SandboxResult) -> bool {
        if outcome.error {
            result matches SandboxResult::Failed { error } && error@ == match outcome.message {
                Some(message) => message@,
                None => "No output from sandbox"@,
            }
        } else {
            result matches SandboxResult::Success { exit_status, signal, resources, was_killed }
                && exit_status == outcome.status_code.unwrap() && signal == if outcome.signal.unwrap()
                == 0 {
                None
            } else {
                outcome.signal
            } && resources == (ExecutionResourcesUsage {
                cpu_time: outcome.cpu_time.unwrap(),
                sys_time: outcome.sys_time.unwrap(),
                wall_time: outcome.wall_time.unwrap(),
                memory: outcome.memory_usage.unwrap(),
            }) && was_killed == outcome.killed_by_sandbox.unwrap()
        }
    }

    /// Reads what the confining program printed when it ended.
    pub fn run(&self, outcome: TMBoxResult) -> (result: SandboxResult)
        requires
            outcome.whole(),
        ensures
            Sandbox::reads(&outcome, result),
    {
        if outcome.error {
            SandboxResult::Failed {
                error: match outcome.message {
                    Some(message) => message,
                    None => String::from_str("No output from sandbox"),
                },
            }
        } else {
            let number = outcome.signal.unwrap();
            SandboxResult::Success {
                exit_status: outcome.status_code.unwrap(),
                signal: if number == 0 {
                    None
                } else {
                    Some(number)
                },
                resources: ExecutionResourcesUsage {
                    cpu_time: outcome.cpu_time.unwrap(),
                    sys_time: outcome.sys_time.unwrap(),
                    wall_time: outcome.wall_time.unwrap(),
                    memory: outcome.memory_usage.unwrap(),
                },
                was_killed: outcome.killed_by_sandbox.unwrap(),
            }
        }
    }

    /// Reads what the confining program printed when it ended, if
    /// nothing is missing from it.
    pub fn try_run(&self, outcome: TMBoxResult) -> (result: Option<SandboxResult>)
        ensures
            result is Some == outcome.whole(),
            result matches Some(read) ==> Sandbox::reads(&outcome, read),
    {
        if outcome.is_whole() {
            Some(self.run(outcome))
        } else {
            None
        }
    }
}

} // verus!
