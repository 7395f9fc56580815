//! The cache of results: what an execution gave is kept under the
//! fingerprint of what it was, and given again to an execution that is
//! the same.

use crate::dag::{
    EnvVar, Execution, ExecutionCommand, ExecutionInput, ExecutionOutput, FileKey, FileUuid,
};
use crate::proto::{ExecutionResult, FileDependency};
use crate::store::{blake2s, key_of};
use crate::text::{decimal, write_decimal};
use vstd::prelude::*;
use vstd::string::{StrSliceExecFns, StringExecFns};
use vstd::utf8::encode_utf8;

verus! {

/// Whether the bytes `a` stand before the bytes `b` in a dictionary.
pub open spec fn bytes_before(a: Seq<u8>, b: Seq<u8>) -> bool
    decreases a.len(),
{
    if b.len() == 0 {
        false
    } else if a.len() == 0 {
        true
    } else if a[0] != b[0] {
        a[0] < b[0]
    } else {
        bytes_before(a.drop_first(), b.drop_first())
    }
}

/// Whether the name `a` stands before the name `b`: by their bytes.
pub open spec fn name_before(a: Seq<char>, b: Seq<char>) -> bool {
    bytes_before(encode_utf8(a), encode_utf8(b))
}

/// Whether the bytes `a` stand before the bytes `b` in a dictionary.
pub fn compare_bytes(a: &Vec<u8>, b: &Vec<u8>) -> (before: bool)
    ensures
        before == bytes_before(a@, b@),
{
    let mut i: usize = 0;
    assert(a@.skip(0) == a@);
    assert(b@.skip(0) == b@);
    while i < a.len() && i < b.len()
        invariant
            i <= a@.len(),
            i <= b@.len(),
            bytes_before(a@, b@) == bytes_before(a@.skip(i as int), b@.skip(i as int)),
        decreases a@.len() - i,
    {
        assert(a@.skip(i as int)[0] == a@[i as int]);
        assert(b@.skip(i as int)[0] == b@[i as int]);
        assert(a@.skip(i as int).drop_first() == a@.skip(i + 1));
        assert(b@.skip(i as int).drop_first() == b@.skip(i + 1));
        if a[i] != b[i] {
            return a[i] < b[i];
        }
        i += 1;
    }
    assert(a@.skip(i as int).len() == a@.len() - i);
    assert(b@.skip(i as int).len() == b@.len() - i);
    i < b.len()
}

/// The variables `sorted`, which are in the order of their names, with
/// `var` at its place: behind the variables whose name does not stand
/// behind its own.
pub open spec fn with_var(sorted: Seq<EnvVar>, var: EnvVar) -> Seq<EnvVar>
    decreases sorted.len(),
{
    if sorted.len() == 0 {
        seq![var]
    } else if name_before(var.name@, sorted.last().name@) {
        with_var(sorted.drop_last(), var).push(sorted.last())
    } else {
        sorted.push(var)
    }
}

/// The variables `env` in the order of their names; those with the same
/// name, in the order in which they stand.
pub open spec fn sorted_env(env: Seq<EnvVar>) -> Seq<EnvVar>
    decreases env.len(),
{
    if env.len() == 0 {
        Seq::empty()
    } else {
        with_var(sorted_env(env.drop_last()), env.last())
    }
}

/// The variables `env` in the order of their names.
pub fn sort_env(env: &Vec<EnvVar>) -> (sorted: Vec<EnvVar>)
    ensures
        sorted@ == sorted_env(env@),
{
    let mut sorted: Vec<EnvVar> = Vec::new();
    let mut i: usize = 0;
    assert(env@.take(0) == Seq::<EnvVar>::empty());
    while i < env.len()
        invariant
            i <= env@.len(),
            sorted@ == sorted_env(env@.take(i as int)),
        decreases env@.len() - i,
    {
        assert(env@.take(i + 1).drop_last() == env@.take(i as int));
        let var = EnvVar { name: env[i].name.clone(), value: env[i].value.clone() };
        let name = var.name.as_str().as_bytes_vec();
        let ghost before = sorted@;
        let mut at: usize = sorted.len();
        assert(before.take(at as int) == before);
        assert(before.skip(at as int) == Seq::<EnvVar>::empty());
        while at > 0 && compare_bytes(&name, &sorted[at - 1].name.as_str().as_bytes_vec())
            invariant
                at <= sorted@.len(),
                sorted@ == before,
                name@ == encode_utf8(var.name@),
                with_var(before, var) == with_var(before.take(at as int), var) + before.skip(
                    at as int,
                ),
            decreases at,
        {
            proof {
                let front = before.take(at as int);
                assert(front.last() == before[at - 1]);
                assert(front.drop_last() == before.take(at - 1));
                assert(with_var(front, var) == with_var(front.drop_last(), var).push(front.last()));
                assert(with_var(before.take(at - 1), var).push(before[at - 1]) + before.skip(
                    at as int,
                ) =~= with_var(before.take(at - 1), var) + before.skip(at - 1));
            }
            at -= 1;
        }
        proof {
            let front = before.take(at as int);
            if at > 0 {
                assert(front.last() == before[at - 1]);
            }
            assert(with_var(front, var) == front.push(var));
        }
        sorted.insert(at, var);
        assert(sorted@ =~= before.take(at as int).push(var) + before.skip(at as int));
        i += 1;
    }
    assert(env@.take(i as int) == env@);
    sorted
}

/// A number as it stands in the description of an execution: its
/// digits, and a semicolon.
pub open spec fn number_text(n: nat) -> Seq<char> {
    decimal(n) + seq![';']
}

/// A text as it stands in the description of an execution: the number
/// of its characters, a colon, and the text.
pub open spec fn string_text(s: Seq<char>) -> Seq<char> {
    decimal(s.len()) + seq![':'] + s
}

/// A number that may be missing: a minus where it is, else a plus and
/// the number.
pub open spec fn optional_text(n: Option<nat>) -> Seq<char> {
    match n {
        Some(n) => seq!['+'] + number_text(n),
        None => seq!['-'],
    }
}

/// A truth value: a one or a zero.
pub open spec fn flag_text(flag: bool) -> Seq<char> {
    if flag {
        seq!['1']
    } else {
        seq!['0']
    }
}

/// A key: its two halves as numbers.
pub open spec fn key_text(key: FileKey) -> Seq<char> {
    number_text(key.hi as nat) + number_text(key.lo as nat)
}

/// The key of `file` according to `keys`: that of the last entry about
/// it.
pub open spec fn key_for(keys: Seq<FileDependency>, file: FileUuid) -> Option<FileKey>
    decreases keys.len(),
{
    if keys.len() == 0 {
        None
    } else if keys.last().file == file {
        Some(keys.last().key)
    } else {
        key_for(keys.drop_last(), file)
    }
}

/// A key that may be missing: a question mark where it is, else an
/// equals sign and the key.
pub open spec fn optional_key_text(key: Option<FileKey>) -> Seq<char> {
    match key {
        Some(key) => seq!['='] + key_text(key),
        None => seq!['?'],
    }
}

/// The texts `strings`, each as said above, one after the other.
pub open spec fn strings_text(strings: Seq<Seq<char>>) -> Seq<char>
    decreases strings.len(),
{
    if strings.len() == 0 {
        Seq::empty()
    } else {
        strings_text(strings.drop_last()) + string_text(strings.last())
    }
}

/// The variables `env`: of each its name and its value.
pub open spec fn env_text(env: Seq<EnvVar>) -> Seq<char>
    decreases env.len(),
{
    if env.len() == 0 {
        Seq::empty()
    } else {
        env_text(env.drop_last()) + string_text(env.last().name@) + string_text(env.last().value@)
    }
}

/// The inputs `inputs`: of each its path, the key of its file, and
/// whether it is executable.
pub open spec fn inputs_text(inputs: Seq<ExecutionInput>, keys: Seq<FileDependency>) -> Seq<char>
    decreases inputs.len(),
{
    if inputs.len() == 0 {
        Seq::empty()
    } else {
        inputs_text(inputs.drop_last(), keys) + string_text(inputs.last().path@)
            + optional_key_text(key_for(keys, inputs.last().file)) + flag_text(
            inputs.last().executable,
        )
    }
}

/// The outputs `outputs`: of each its path.
pub open spec fn outputs_text(outputs: Seq<ExecutionOutput>) -> Seq<char>
    decreases outputs.len(),
{
    if outputs.len() == 0 {
        Seq::empty()
    } else {
        outputs_text(outputs.drop_last()) + string_text(outputs.last().path@)
    }
}

/// The number in an optional 64-bit number.
pub open spec fn as_nat(n: Option<u64>) -> Option<nat> {
    match n {
        Some(n) => Some(n as nat),
        None => None,
    }
}

/// What an execution calls: its command, its arguments, and its
/// environment in the order of the names.
pub open spec fn call_text(execution: &Execution) -> Seq<char> {
    (match execution.command {
        ExecutionCommand::System(name) => seq!['S'] + string_text(name@),
        ExecutionCommand::Local(path) => seq!['L'] + string_text(path@),
    }) + number_text(execution.args@.len()) + strings_text(crate::sandbox::texts(execution.args@))
        + number_text(execution.env@.len()) + env_text(sorted_env(execution.env@))
}

/// The files of an execution: its standard input and its inputs with
/// the keys of their files, which streams it writes, and the paths of
/// its outputs.
pub open spec fn files_text(execution: &Execution, keys: Seq<FileDependency>) -> Seq<char> {
    (match execution.stdin {
        Some(file) => seq!['<'] + optional_key_text(key_for(keys, file)),
        None => seq!['-'],
    }) + number_text(execution.inputs@.len()) + inputs_text(execution.inputs@, keys) + flag_text(
        execution.stdout is Some,
    ) + flag_text(execution.stderr is Some) + number_text(execution.outputs@.len()) + outputs_text(
        execution.outputs@,
    )
}

/// The limits of an execution, and its tag.
pub open spec fn limits_text(execution: &Execution) -> Seq<char> {
    optional_text(as_nat(execution.limits.cpu_time)) + optional_text(
        as_nat(execution.limits.sys_time),
    ) + optional_text(as_nat(execution.limits.wall_time)) + optional_text(
        as_nat(execution.limits.memory),
    ) + optional_text(
        match execution.limits.nproc {
            Some(n) => Some(n as nat),
            None => None,
        },
    ) + flag_text(execution.limits.read_only) + flag_text(execution.limits.mount_tmpfs)
        + number_text(execution.limits.extra_readable_dirs@.len()) + strings_text(
        crate::sandbox::texts(execution.limits.extra_readable_dirs@),
    ) + number_text(execution.extra_time as nat) + (match execution.tag {
        Some(tag) => seq!['+'] + string_text(tag@),
        None => seq!['-'],
    })
}

/// What an execution is, for the cache: what it calls, its files, and
/// its limits and tag. Neither its identifier nor those of its files are
/// part of it.
pub open spec fn description_text(execution: &Execution, keys: Seq<FileDependency>) -> Seq<char> {
    call_text(execution) + files_text(execution, keys) + limits_text(execution)
}

/// The fingerprint of an execution: the digest of what it is.
pub open spec fn fingerprint_of(execution: &Execution, keys: Seq<FileDependency>) -> FileKey {
    blake2s(encode_utf8(description_text(execution, keys)))
}

/// Appends a number to `text`.
fn put_number(text: &mut String, n: u128)
    ensures
        final(text)@ == old(text)@ + number_text(n as nat),
{
    proof {
        reveal_strlit(";");
    }
    text.append(write_decimal(n).as_str());
    text.append(";");
    assert(text@ =~= old(text)@ + number_text(n as nat));
}

/// Appends a text to `text`.
fn put_string(text: &mut String, s: &str)
    ensures
        final(text)@ == old(text)@ + string_text(s@),
{
    proof {
        reveal_strlit(":");
    }
    text.append(write_decimal(s.unicode_len() as u128).as_str());
    text.append(":");
    text.append(s);
    assert(text@ =~= old(text)@ + string_text(s@));
}

/// Appends a number that may be missing to `text`.
fn put_optional(text: &mut String, n: Option<u64>)
    ensures
        final(text)@ == old(text)@ + optional_text(as_nat(n)),
{
    proof {
        reveal_strlit("+");
        reveal_strlit("-");
    }
    match n {
        Some(n) => {
            text.append("+");
            put_number(text, n as u128);
            assert(text@ =~= old(text)@ + optional_text(as_nat(Some(n))));
        },
        None => {
            text.append("-");
            assert(text@ =~= old(text)@ + optional_text(None));
        },
    }
}

/// Appends a truth value to `text`.
fn put_flag(text: &mut String, flag: bool)
    ensures
        final(text)@ == old(text)@ + flag_text(flag),
{
    proof {
        reveal_strlit("1");
        reveal_strlit("0");
    }
    if flag {
        text.append("1");
    } else {
        text.append("0");
    }
    assert(text@ =~= old(text)@ + flag_text(flag));
}

/// The key of `file` according to `keys`.
pub fn find_key(keys: &Vec<FileDependency>, file: FileUuid) -> (key: Option<FileKey>)
    ensures
        key == key_for(keys@, file),
{
    let mut key: Option<FileKey> = None;
    let mut i: usize = 0;
    assert(keys@.take(0) == Seq::<FileDependency>::empty());
    while i < keys.len()
        invariant
            i <= keys@.len(),
            key == key_for(keys@.take(i as int), file),
        decreases keys@.len() - i,
    {
        assert(keys@.take(i + 1).drop_last() == keys@.take(i as int));
        if keys[i].file == file {
            key = Some(keys[i].key);
        }
        i += 1;
    }
    assert(keys@.take(i as int) == keys@);
    key
}

/// Appends a key that may be missing to `text`.
fn put_optional_key(text: &mut String, key: Option<FileKey>)
    ensures
        final(text)@ == old(text)@ + optional_key_text(key),
{
    proof {
        reveal_strlit("=");
        reveal_strlit("?");
    }
    match key {
        Some(key) => {
            text.append("=");
            put_number(text, key.hi);
            put_number(text, key.lo);
            assert(text@ =~= old(text)@ + optional_key_text(Some(key)));
        },
        None => {
            text.append("?");
            assert(text@ =~= old(text)@ + optional_key_text(None));
        },
    }
}

/// Appends texts to `text`.
fn put_strings(text: &mut String, strings: &Vec<String>)
    ensures
        final(text)@ == old(text)@ + strings_text(crate::sandbox::texts(strings@)),
{
    let ghost all = crate::sandbox::texts(strings@);
    let mut i: usize = 0;
    assert(all.take(0) == Seq::<Seq<char>>::empty());
    assert(text@ =~= old(text)@ + strings_text(all.take(0)));
    while i < strings.len()
        invariant
            i <= strings@.len(),
            all == crate::sandbox::texts(strings@),
            text@ == old(text)@ + strings_text(all.take(i as int)),
        decreases strings@.len() - i,
    {
        let ghost before = text@;
        assert(all.take(i + 1).drop_last() == all.take(i as int));
        assert(all.take(i + 1).last() == strings@[i as int]@);
        put_string(text, strings[i].as_str());
        assert(text@ =~= old(text)@ + strings_text(all.take(i + 1)));
        i += 1;
    }
    assert(all.take(i as int) == all);
}

/// Appends variables to `text`.
fn put_env(text: &mut String, env: &Vec<EnvVar>)
    ensures
        final(text)@ == old(text)@ + env_text(env@),
{
    let mut i: usize = 0;
    assert(env@.take(0) == Seq::<EnvVar>::empty());
    assert(text@ =~= old(text)@ + env_text(env@.take(0)));
    while i < env.len()
        invariant
            i <= env@.len(),
            text@ == old(text)@ + env_text(env@.take(i as int)),
        decreases env@.len() - i,
    {
        assert(env@.take(i + 1).drop_last() == env@.take(i as int));
        put_string(text, env[i].name.as_str());
        put_string(text, env[i].value.as_str());
        assert(text@ =~= old(text)@ + env_text(env@.take(i + 1)));
        i += 1;
    }
    assert(env@.take(i as int) == env@);
}

/// Appends inputs to `text`.
fn put_inputs(text: &mut String, inputs: &Vec<ExecutionInput>, keys: &Vec<FileDependency>)
    ensures
        final(text)@ == old(text)@ + inputs_text(inputs@, keys@),
{
    let mut i: usize = 0;
    assert(inputs@.take(0) == Seq::<ExecutionInput>::empty());
    assert(text@ =~= old(text)@ + inputs_text(inputs@.take(0), keys@));
    while i < inputs.len()
        invariant
            i <= inputs@.len(),
            text@ == old(text)@ + inputs_text(inputs@.take(i as int), keys@),
        decreases inputs@.len() - i,
    {
        assert(inputs@.take(i + 1).drop_last() == inputs@.take(i as int));
        put_string(text, inputs[i].path.as_str());
        put_optional_key(text, find_key(keys, inputs[i].file));
        put_flag(text, inputs[i].executable);
        assert(text@ =~= old(text)@ + inputs_text(inputs@.take(i + 1), keys@));
        i += 1;
    }
    assert(inputs@.take(i as int) == inputs@);
}

/// Appends outputs to `text`.
fn put_outputs(text: &mut String, outputs: &Vec<ExecutionOutput>)
    ensures
        final(text)@ == old(text)@ + outputs_text(outputs@),
{
    let mut i: usize = 0;
    assert(outputs@.take(0) == Seq::<ExecutionOutput>::empty());
    assert(text@ =~= old(text)@ + outputs_text(outputs@.take(0)));
    while i < outputs.len()
        invariant
            i <= outputs@.len(),
            text@ == old(text)@ + outputs_text(outputs@.take(i as int)),
        decreases outputs@.len() - i,
    {
        assert(outputs@.take(i + 1).drop_last() == outputs@.take(i as int));
        put_string(text, outputs[i].path.as_str());
        assert(text@ =~= old(text)@ + outputs_text(outputs@.take(i + 1)));
        i += 1;
    }
    assert(outputs@.take(i as int) == outputs@);
}

/// Writes what the command, the arguments and the environment of
/// `execution` are.
fn describe_call(execution: &Execution) -> (text: String)
    ensures
        text@ == call_text(execution),
{
    proof {
        reveal_strlit("S");
        reveal_strlit("L");
    }
    let mut text = String::new();
    match &execution.command {
        ExecutionCommand::System(name) => {
            text.append("S");
            put_string(&mut text, name.as_str());
        },
        ExecutionCommand::Local(path) => {
            text.append("L");
            put_string(&mut text, path.as_str());
        },
    }
    let ghost first = text@;
    assert(first =~= match execution.command {
        ExecutionCommand::System(name) => seq!['S'] + string_text(name@),
        ExecutionCommand::Local(path) => seq!['L'] + string_text(path@),
    });
    put_number(&mut text, execution.args.len() as u128);
    put_strings(&mut text, &execution.args);
    put_number(&mut text, execution.env.len() as u128);
    let sorted = sort_env(&execution.env);
    put_env(&mut text, &sorted);
    text
}

/// Writes what the files of `execution` are.
fn describe_files(execution: &Execution, keys: &Vec<FileDependency>) -> (text: String)
    ensures
        text@ == files_text(execution, keys@),
{
    proof {
        reveal_strlit("<");
        reveal_strlit("-");
    }
    let mut text = String::new();
    match execution.stdin {
        Some(file) => {
            text.append("<");
            put_optional_key(&mut text, find_key(keys, file));
        },
        None => {
            text.append("-");
        },
    }
    let ghost first = text@;
    assert(first =~= match execution.stdin {
        Some(file) => seq!['<'] + optional_key_text(key_for(keys@, file)),
        None => seq!['-'],
    });
    put_number(&mut text, execution.inputs.len() as u128);
    put_inputs(&mut text, &execution.inputs, keys);
    put_flag(&mut text, execution.stdout.is_some());
    put_flag(&mut text, execution.stderr.is_some());
    put_number(&mut text, execution.outputs.len() as u128);
    put_outputs(&mut text, &execution.outputs);
    text
}

/// Writes what the limits and the tag of `execution` are.
fn describe_limits(execution: &Execution) -> (text: String)
    ensures
        text@ == limits_text(execution),
{
    proof {
        reveal_strlit("+");
        reveal_strlit("-");
    }
    let mut text = String::new();
    put_optional(&mut text, execution.limits.cpu_time);
    assert(text@ =~= optional_text(as_nat(execution.limits.cpu_time)));
    put_optional(&mut text, execution.limits.sys_time);
    put_optional(&mut text, execution.limits.wall_time);
    put_optional(&mut text, execution.limits.memory);
    let nproc = match execution.limits.nproc {
        Some(n) => Some(n as u64),
        None => None,
    };
    assert(as_nat(nproc) == match execution.limits.nproc {
        Some(n) => Some(n as nat),
        None => None,
    });
    put_optional(&mut text, nproc);
    put_flag(&mut text, execution.limits.read_only);
    put_flag(&mut text, execution.limits.mount_tmpfs);
    put_number(&mut text, execution.limits.extra_readable_dirs.len() as u128);
    put_strings(&mut text, &execution.limits.extra_readable_dirs);
    put_number(&mut text, execution.extra_time as u128);
    let ghost before = text@;
    match &execution.tag {
        Some(tag) => {
            text.append("+");
            put_string(&mut text, tag.as_str());
        },
        None => {
            text.append("-");
        },
    }
    assert(text@ =~= before + (match execution.tag {
        Some(tag) => seq!['+'] + string_text(tag@),
        None => seq!['-'],
    }));
    text
}

/// Writes what `execution` is, for the cache, with `keys` the keys of
/// the files that it needs.
pub fn describe(execution: &Execution, keys: &Vec<FileDependency>) -> (text: String)
    ensures
        text@ == description_text(execution, keys@),
{
    let mut text = describe_call(execution);
    text.append(describe_files(execution, keys).as_str());
    text.append(describe_limits(execution).as_str());
    text
}

/// The fingerprint of `execution`, with `keys` the keys of the files
/// that it needs.
pub fn fingerprint(execution: &Execution, keys: &Vec<FileDependency>) -> (print: FileKey)
    ensures
        print == fingerprint_of(execution, keys@),
{
    let text = describe(execution, keys);
    let bytes = text.as_str().as_bytes_vec();
    key_of(&bytes)
}

/// What an execution that returned zero gave.
#[derive(Clone, Debug)]
pub struct CachedResult {
    /// How it ended.
    pub result: ExecutionResult,
    /// The keys of the files that it made, in the order of its products.
    pub outputs: Vec<FileKey>,
}

/// A result in the cache.
#[derive(Clone, Debug)]
pub struct CacheEntry {
    /// The fingerprint of the execution.
    pub fingerprint: FileKey,
    /// What the execution gave.
    pub result: CachedResult,
}

/// The cache of results.
#[derive(Debug)]
pub struct Cache {
    /// The results, in the order in which they came.
    pub entries: Vec<CacheEntry>,
}

/// The place in `entries` of the result kept under `print`: that of the
/// last entry with this fingerprint.
pub open spec fn cached_at(entries: Seq<CacheEntry>, print: FileKey) -> Option<int>
    decreases entries.len(),
{
    if entries.len() == 0 {
        None
    } else if entries.last().fingerprint == print {
        Some(entries.len() - 1)
    } else {
        cached_at(entries.drop_last(), print)
    }
}

impl Cache {
    /// An empty cache.
    pub fn new() -> (cache: Cache)
        ensures
            cache.entries@.len() == 0,
    {
        Cache { entries: Vec::new() }
    }

    /// The result kept under `print`, if any.
    pub fn get(&self, print: FileKey) -> (found: Option<&CachedResult>)
        ensures
            match found {
                Some(result) => cached_at(self.entries@, print) matches Some(at) && *result
                    == self.entries@[at].result,
                None => cached_at(self.entries@, print) is None,
            },
    {
        let mut i: usize = self.entries.len();
        assert(self.entries@.take(i as int) == self.entries@);
        while i > 0
            invariant
                i <= self.entries@.len(),
                cached_at(self.entries@, print) == cached_at(self.entries@.take(i as int), print),
            decreases i,
        {
            let ghost front = self.entries@.take(i as int);
            assert(front.last() == self.entries@[i - 1]);
            assert(front.drop_last() == self.entries@.take(i - 1));
            let entry = &self.entries[i - 1];
            if entry.fingerprint.hi == print.hi && entry.fingerprint.lo == print.lo {
                return Some(&entry.result);
            }
            i -= 1;
        }
        None
    }

    /// Keeps `result` under `print`, where the execution returned zero;
    /// says whether it did. A result kept under `print` before is
    /// hidden by the new one.
    pub fn insert(&mut self, print: FileKey, result: CachedResult) -> (kept: bool)
        ensures
            kept == result.result.succeeded(),
            kept ==> final(self).entries@ == old(self).entries@.push(
                CacheEntry { fingerprint: print, result },
            ),
            !kept ==> final(self).entries@ == old(self).entries@,
    {
        if result.result.is_success() {
            self.entries.push(CacheEntry { fingerprint: print, result });
            true
        } else {
            false
        }
    }
}

/// What is kept is found again: a result that is kept under a
/// fingerprint is the one that the cache gives for it, and the results
/// under other fingerprints stay.
pub proof fn cache_round_trip(
    before: Seq<CacheEntry>,
    print: FileKey,
    result: CachedResult,
    other: FileKey,
)
    ensures
        cached_at(before.push(CacheEntry { fingerprint: print, result }), print) == Some(
            before.len() as int,
        ),
        before.push(CacheEntry { fingerprint: print, result })[before.len() as int].result == result,
        other != print ==> cached_at(before.push(CacheEntry { fingerprint: print, result }), other)
            == cached_at(before, other),
{
    let after = before.push(CacheEntry { fingerprint: print, result });
    assert(after.drop_last() == before);
}

/// Of two different lists of bytes, one stands before the other.
pub proof fn lemma_bytes_total(a: Seq<u8>, b: Seq<u8>)
    ensures
        bytes_before(a, b) || bytes_before(b, a) || a == b,
        !(bytes_before(a, b) && bytes_before(b, a)),
    decreases a.len(),
{
    if a.len() > 0 && b.len() > 0 && a[0] == b[0] {
        lemma_bytes_total(a.drop_first(), b.drop_first());
        if a.drop_first() == b.drop_first() {
            assert(a =~= seq![a[0]] + a.drop_first());
            assert(b =~= seq![b[0]] + b.drop_first());
        }
    } else if a.len() == 0 && b.len() == 0 {
        assert(a =~= b);
    }
}

/// What stands before what stands before a third stands before the
/// third.
pub proof fn lemma_bytes_transitive(a: Seq<u8>, b: Seq<u8>, c: Seq<u8>)
    requires
        bytes_before(a, b),
        bytes_before(b, c),
    ensures
        bytes_before(a, c),
    decreases a.len(),
{
    if a.len() > 0 && b.len() > 0 && c.len() > 0 && a[0] == b[0] && b[0] == c[0] {
        lemma_bytes_transitive(a.drop_first(), b.drop_first(), c.drop_first());
    }
}

/// Whether no variable of `env` stands before one that stands before
/// it in the list.
pub open spec fn in_name_order(env: Seq<EnvVar>) -> bool {
    forall|i: int, j: int|
        0 <= i < j < env.len() ==> !name_before((#[trigger] env[j]).name@, (#[trigger] env[i]).name@)
}

/// A variable put at its place in a list that is in the order of the
/// names leaves the list in that order, with one variable more, and
/// with the same variables besides.
pub proof fn lemma_with_var(sorted: Seq<EnvVar>, var: EnvVar)
    requires
        in_name_order(sorted),
    ensures
        in_name_order(with_var(sorted, var)),
        with_var(sorted, var).len() == sorted.len() + 1,
        forall|e: EnvVar| #[trigger]
            with_var(sorted, var).contains(e) <==> (e == var || sorted.contains(e)),
    decreases sorted.len(),
{
    let result = with_var(sorted, var);
    if sorted.len() == 0 {
        assert(result[0] == var);
    } else if name_before(var.name@, sorted.last().name@) {
        let front = sorted.drop_last();
        assert(in_name_order(front)) by {
            assert forall|i: int, j: int| 0 <= i < j < front.len() implies !name_before(
                (#[trigger] front[j]).name@,
                (#[trigger] front[i]).name@,
            ) by {
                assert(front[i] == sorted[i] && front[j] == sorted[j]);
            }
        }
        lemma_with_var(front, var);
        let inner = with_var(front, var);
        assert(result == inner.push(sorted.last()));
        assert forall|i: int, j: int| 0 <= i < j < result.len() implies !name_before(
            (#[trigger] result[j]).name@,
            (#[trigger] result[i]).name@,
        ) by {
            if j < inner.len() {
                assert(result[i] == inner[i] && result[j] == inner[j]);
            } else {
                assert(result[i] == inner[i]);
                assert(inner.contains(inner[i]));
                let last = encode_utf8(sorted.last().name@);
                let other = encode_utf8(inner[i].name@);
                if inner[i] == var {
                    lemma_bytes_total(last, other);
                } else {
                    assert(inner.contains(inner[i]) <==> (inner[i] == var || front.contains(
                        inner[i],
                    )));
                    let k = choose|k: int| 0 <= k < front.len() && front[k] == inner[i];
                    assert(sorted[k] == inner[i]);
                    assert(!name_before(sorted[sorted.len() - 1].name@, sorted[k].name@));
                }
            }
        }
        assert forall|e: EnvVar| #[trigger]
            result.contains(e) <==> (e == var || sorted.contains(e)) by {
            if result.contains(e) {
                let k = choose|k: int| 0 <= k < result.len() && result[k] == e;
                if k < inner.len() {
                    assert(inner[k] == e);
                    assert(inner.contains(e));
                    assert(inner.contains(e) <==> (e == var || front.contains(e)));
                    if front.contains(e) {
                        let at = choose|at: int| 0 <= at < front.len() && front[at] == e;
                        assert(sorted[at] == e);
                    }
                } else {
                    assert(sorted[sorted.len() - 1] == e);
                }
            }
            if e == var {
                assert(inner.contains(var) <==> (var == var || front.contains(var)));
                let k = choose|k: int| 0 <= k < inner.len() && inner[k] == var;
                assert(result[k] == var);
            }
            if sorted.contains(e) {
                let k = choose|k: int| 0 <= k < sorted.len() && sorted[k] == e;
                if k < front.len() {
                    assert(front[k] == e);
                    assert(front.contains(e));
                    assert(inner.contains(e) <==> (e == var || front.contains(e)));
                    let at = choose|at: int| 0 <= at < inner.len() && inner[at] == e;
                    assert(result[at] == e);
                } else {
                    assert(result[result.len() - 1] == e);
                }
            }
        }
    } else {
        assert(result == sorted.push(var));
        assert forall|i: int, j: int| 0 <= i < j < result.len() implies !name_before(
            (#[trigger] result[j]).name@,
            (#[trigger] result[i]).name@,
        ) by {
            if j < sorted.len() {
                assert(result[i] == sorted[i] && result[j] == sorted[j]);
            } else {
                assert(result[i] == sorted[i]);
                let mine = encode_utf8(var.name@);
                let last = encode_utf8(sorted.last().name@);
                let other = encode_utf8(sorted[i].name@);
                if name_before(var.name@, sorted[i].name@) {
                    // Then the last variable stands before the one at `i`, or is it.
                    lemma_bytes_total(last, mine);
                    if i < sorted.len() - 1 {
                        assert(!name_before(sorted[sorted.len() - 1].name@, sorted[i].name@));
                        if bytes_before(last, mine) {
                            lemma_bytes_transitive(last, mine, other);
                        }
                    }
                }
            }
        }
        assert forall|e: EnvVar| #[trigger]
            result.contains(e) <==> (e == var || sorted.contains(e)) by {
            if result.contains(e) {
                let k = choose|k: int| 0 <= k < result.len() && result[k] == e;
                if k < sorted.len() {
                    assert(sorted[k] == e);
                }
            }
            if e == var {
                assert(result[sorted.len() as int] == var);
            }
            if sorted.contains(e) {
                let k = choose|k: int| 0 <= k < sorted.len() && sorted[k] == e;
                assert(result[k] == e);
            }
        }
    }
}

/// The variables in the order of their names are in that order, as
/// many as they were, and the same.
pub proof fn sorted_env_is_sorted(env: Seq<EnvVar>)
    ensures
        in_name_order(sorted_env(env)),
        sorted_env(env).len() == env.len(),
        forall|e: EnvVar| #[trigger] sorted_env(env).contains(e) <==> env.contains(e),
    decreases env.len(),
{
    if env.len() > 0 {
        let front = env.drop_last();
        sorted_env_is_sorted(front);
        lemma_with_var(sorted_env(front), env.last());
        assert forall|e: EnvVar| #[trigger] sorted_env(env).contains(e) <==> env.contains(e) by {
            assert(sorted_env(env).contains(e) <==> (e == env.last() || sorted_env(
                front,
            ).contains(e)));
            assert(sorted_env(front).contains(e) <==> front.contains(e));
            if env.contains(e) {
                let k = choose|k: int| 0 <= k < env.len() && env[k] == e;
                if k < front.len() {
                    assert(front[k] == e);
                }
            }
            if front.contains(e) {
                let k = choose|k: int| 0 <= k < front.len() && front[k] == e;
                assert(env[k] == e);
            }
            if e == env.last() {
                assert(env[env.len() - 1] == e);
            }
        }
    }
}

/// Whether the inputs `a` and `b` are the same to the cache: as many,
/// and each with the same path, the same key for its file, and
/// executable or not alike.
pub open spec fn inputs_alike(
    a: Seq<ExecutionInput>,
    a_keys: Seq<FileDependency>,
    b: Seq<ExecutionInput>,
    b_keys: Seq<FileDependency>,
) -> bool {
    &&& a.len() == b.len()
    &&& forall|i: int|
        0 <= i < a.len() ==> (#[trigger] a[i]).path@ == b[i].path@ && a[i].executable
            == b[i].executable && key_for(a_keys, a[i].file) == key_for(b_keys, b[i].file)
}

/// Whether the outputs `a` and `b` are the same to the cache: as many,
/// and each with the same path.
pub open spec fn outputs_alike(a: Seq<ExecutionOutput>, b: Seq<ExecutionOutput>) -> bool {
    &&& a.len() == b.len()
    &&& forall|i: int| 0 <= i < a.len() ==> (#[trigger] a[i]).path@ == b[i].path@
}

/// Whether the executions `a` and `b`, with `a_keys` and `b_keys` the
/// keys of the files that they need, are the same but for their
/// identifiers and those of their files.
pub open spec fn alike(
    a: &Execution,
    a_keys: Seq<FileDependency>,
    b: &Execution,
    b_keys: Seq<FileDependency>,
) -> bool {
    &&& a.command == b.command
    &&& a.args@ == b.args@
    &&& a.env@ == b.env@
    &&& a.stdin is Some == b.stdin is Some
    &&& a.stdin is Some ==> key_for(a_keys, a.stdin.unwrap()) == key_for(b_keys, b.stdin.unwrap())
    &&& inputs_alike(a.inputs@, a_keys, b.inputs@, b_keys)
    &&& a.stdout is Some == b.stdout is Some
    &&& a.stderr is Some == b.stderr is Some
    &&& outputs_alike(a.outputs@, b.outputs@)
    &&& a.limits.same(&b.limits)
    &&& a.extra_time == b.extra_time
    &&& a.tag == b.tag
}

/// Inputs that are the same to the cache are described alike.
proof fn lemma_inputs_alike(
    a: Seq<ExecutionInput>,
    a_keys: Seq<FileDependency>,
    b: Seq<ExecutionInput>,
    b_keys: Seq<FileDependency>,
)
    requires
        inputs_alike(a, a_keys, b, b_keys),
    ensures
        inputs_text(a, a_keys) == inputs_text(b, b_keys),
    decreases a.len(),
{
    if a.len() > 0 {
        assert(inputs_alike(a.drop_last(), a_keys, b.drop_last(), b_keys)) by {
            assert forall|i: int| 0 <= i < a.drop_last().len() implies (
            #[trigger] a.drop_last()[i]).path@ == b.drop_last()[i].path@
                && a.drop_last()[i].executable == b.drop_last()[i].executable && key_for(
                a_keys,
                a.drop_last()[i].file,
            ) == key_for(b_keys, b.drop_last()[i].file) by {
                assert(a[i].path@ == b[i].path@);
            }
        }
        lemma_inputs_alike(a.drop_last(), a_keys, b.drop_last(), b_keys);
        assert(a[a.len() - 1].path@ == b[a.len() - 1].path@);
    }
}

/// Outputs that are the same to the cache are described alike.
proof fn lemma_outputs_alike(a: Seq<ExecutionOutput>, b: Seq<ExecutionOutput>)
    requires
        outputs_alike(a, b),
    ensures
        outputs_text(a) == outputs_text(b),
    decreases a.len(),
{
    if a.len() > 0 {
        assert(outputs_alike(a.drop_last(), b.drop_last())) by {
            assert forall|i: int| 0 <= i < a.drop_last().len() implies (
            #[trigger] a.drop_last()[i]).path@ == b.drop_last()[i].path@ by {
                assert(a[i].path@ == b[i].path@);
            }
        }
        lemma_outputs_alike(a.drop_last(), b.drop_last());
        assert(a[a.len() - 1].path@ == b[a.len() - 1].path@);
    }
}

/// Executions that are the same but for their identifiers and those of
/// their files have the same fingerprint: what one of them gave is
/// found again for the other.
pub proof fn fingerprint_ignores_identifiers(
    a: &Execution,
    a_keys: Seq<FileDependency>,
    b: &Execution,
    b_keys: Seq<FileDependency>,
)
    requires
        alike(a, a_keys, b, b_keys),
    ensures
        description_text(a, a_keys) == description_text(b, b_keys),
        fingerprint_of(a, a_keys) == fingerprint_of(b, b_keys),
{
    lemma_inputs_alike(a.inputs@, a_keys, b.inputs@, b_keys);
    lemma_outputs_alike(a.outputs@, b.outputs@);
    assert(call_text(a) == call_text(b));
    assert(files_text(a, a_keys) == files_text(b, b_keys));
    assert(limits_text(a) == limits_text(b));
}

} // verus!
