//! Validation of an execution graph before it is scheduled.

use crate::dag::{ExecutionDAGData, ExecutionDAGWatchSet, ExecutionUuid, FileUuid};
use crate::text::{decimal, write_decimal};
use vstd::prelude::*;
use vstd::string::StringExecFns;

verus! {

/// Why a graph is refused.
#[derive(Clone, Copy, Debug, PartialEq, Eq, Structural)]
pub enum DagError {
    /// An execution needs a file that nobody supplies or makes.
    MissingDependency {
        /// The execution that needs the file.
        execution: ExecutionUuid,
        /// The file without a source.
        file: FileUuid,
    },
    /// A file has more than one source.
    DuplicateProducer {
        /// The file.
        file: FileUuid,
    },
    /// Some executions wait for each other.
    DependencyCycle,
    /// The client watches something that is not in the graph.
    UnknownCallbackTarget {
        /// The identifier that names nothing.
        uuid: u128,
    },
}

impl DagError {
    /// The error in words, with the identifiers in decimal.
    pub open spec fn text(&self) -> Seq<char> {
        match self {
            DagError::MissingDependency { execution, file } => "missing dependency: file "@
                + decimal(*file as nat) + ", needed by execution "@ + decimal(*execution as nat)
                + ", has no source"@,
            DagError::DuplicateProducer { file } => "duplicate producer: file "@ + decimal(
                *file as nat,
            ) + " has more than one source"@,
            DagError::DependencyCycle => "dependency cycle: some executions wait for each other"@,
            DagError::UnknownCallbackTarget { uuid } => "unknown callback target: "@ + decimal(
                *uuid as nat,
            ) + " is not in the graph"@,
        }
    }

    /// The error in words, with the identifiers in decimal.
    pub fn message(&self) -> (text: String)
        ensures
            text@ == self.text(),
    {
        match self {
            DagError::MissingDependency { execution, file } => {
                let mut text = String::from_str("missing dependency: file ");
                text.append(write_decimal(*file).as_str());
                text.append(", needed by execution ");
                text.append(write_decimal(*execution).as_str());
                text.append(", has no source");
                text
            },
            DagError::DuplicateProducer { file } => {
                let mut text = String::from_str("duplicate producer: file ");
                text.append(write_decimal(*file).as_str());
                text.append(" has more than one source");
                text
            },
            DagError::DependencyCycle => String::from_str(
                "dependency cycle: some executions wait for each other",
            ),
            DagError::UnknownCallbackTarget { uuid } => {
                let mut text = String::from_str("unknown callback target: ");
                text.append(write_decimal(*uuid).as_str());
                text.append(" is not in the graph");
                text
            },
        }
    }
}

impl ExecutionDAGData {
    /// The sources of files, in order: the supplied files, then the
    /// products of the first `n` executions.
    pub open spec fn sources_upto(&self, n: nat) -> Seq<FileUuid>
        decreases n,
    {
        if n == 0 {
            self.provided_uuids()
        } else {
            self.sources_upto((n - 1) as nat) + self.execs()[n - 1].makes()
        }
    }

    /// Every source of a file: the supplied files, then the products of
    /// each execution. A file with two sources occurs twice.
    pub open spec fn sources(&self) -> Seq<FileUuid> {
        self.sources_upto(self.execs().len())
    }

    /// Whether every file that an execution needs has a source.
    pub open spec fn dependencies_resolve(&self) -> bool {
        forall|i: int, k: int|
            0 <= i < self.execs().len() && 0 <= k < self.execs()[i].needs().len()
                ==> self.sources().contains(#[trigger] self.execs()[i].needs()[k])
    }

    /// Whether every dependency that stands before the `k`-th one of the
    /// `i`-th execution has a source.
    pub open spec fn resolve_before(&self, i: int, k: int) -> bool {
        forall|a: int, b: int|
            0 <= a < self.execs().len() && 0 <= b < self.execs()[a].needs().len() && (a < i || (a
                == i && b < k)) ==> self.sources().contains(#[trigger] self.execs()[a].needs()[b])
    }

    /// Whether `file`, needed by `execution`, is the first dependency of
    /// the graph without a source.
    pub open spec fn first_missing(&self, execution: ExecutionUuid, file: FileUuid) -> bool {
        exists|i: int, k: int|
            0 <= i < self.execs().len() && 0 <= k < self.execs()[i].needs().len()
                && self.execs()[i].uuid == execution && #[trigger] self.execs()[i].needs()[k]
                == file && !self.sources().contains(file) && self.resolve_before(i, k)
    }

    /// Whether no file has two sources.
    pub open spec fn single_producers(&self) -> bool {
        self.sources().no_duplicates()
    }

    /// Whether the `v`-th execution needs a file that the `u`-th makes.
    pub open spec fn feeds(&self, u: int, v: int) -> bool {
        exists|f: FileUuid|
            self.execs()[u].makes().contains(f) && #[trigger] self.execs()[v].needs().contains(f)
    }

    /// Whether `rank` numbers the executions so that each one has a greater
    /// number than every execution that feeds it.
    pub open spec fn ranked_by(&self, rank: Seq<nat>) -> bool {
        &&& rank.len() == self.execs().len()
        &&& forall|u: int, v: int|
            0 <= u < self.execs().len() && 0 <= v < self.execs().len() && #[trigger] self.feeds(
                u,
                v,
            ) ==> rank[u] < rank[v]
    }

    /// Whether no execution waits, directly or through others, for itself:
    /// the executions can be numbered along their dependencies. That such
    /// a numbering exists exactly where no chain of dependencies leads
    /// from an execution back to it is proved in `laws`.
    pub open spec fn acyclic(&self) -> bool {
        exists|rank: Seq<nat>| self.ranked_by(rank)
    }

    /// Whether `uuid` names an execution of the graph.
    pub open spec fn has_execution(&self, uuid: ExecutionUuid) -> bool {
        exists|i: int| 0 <= i < self.execs().len() && #[trigger] self.execs()[i].uuid == uuid
    }

    /// Whether `uuid` names a file of the graph, supplied or made.
    pub open spec fn has_file(&self, uuid: FileUuid) -> bool {
        self.sources().contains(uuid)
    }

    /// Whether everything that the client watches is in the graph.
    pub open spec fn knows(&self, watch: &ExecutionDAGWatchSet) -> bool {
        &&& forall|k: int|
            0 <= k < watch.executions@.len() ==> self.has_execution(#[trigger] watch.executions@[k])
        &&& forall|k: int| 0 <= k < watch.files@.len() ==> self.has_file(#[trigger] watch.files@[k])
    }

    /// Whether `uuid` is the first watched identifier that names nothing,
    /// the executions taken before the files.
    pub open spec fn first_unknown(&self, watch: &ExecutionDAGWatchSet, uuid: u128) -> bool {
        ||| exists|k: int|
            0 <= k < watch.executions@.len() && #[trigger] watch.executions@[k] == uuid
                && !self.has_execution(uuid) && forall|j: int|
                0 <= j < k ==> self.has_execution(#[trigger] watch.executions@[j])
        ||| {
            &&& forall|j: int|
                0 <= j < watch.executions@.len() ==> self.has_execution(
                    #[trigger] watch.executions@[j],
                )
            &&& exists|k: int|
                0 <= k < watch.files@.len() && #[trigger] watch.files@[k] == uuid && !self.has_file(
                    uuid,
                ) && forall|j: int| 0 <= j < k ==> self.has_file(#[trigger] watch.files@[j])
        }
    }

    /// Whether the graph can be scheduled: every dependency has a source,
    /// no file has two, and no execution waits for itself.
    pub open spec fn valid(&self) -> bool {
        self.dependencies_resolve() && self.single_producers() && self.acyclic()
    }

    /// Whether `error` is the reason for which the graph, watched by
    /// `watch`, is refused: that of the first check that fails, the
    /// checks taken in the order of the variants of the error.
    pub open spec fn refused_with(&self, watch: &ExecutionDAGWatchSet, error: DagError) -> bool {
        match error {
            DagError::MissingDependency { execution, file } => self.first_missing(execution, file),
            DagError::DuplicateProducer { file } => self.dependencies_resolve() && first_repeated(
                self.sources(),
                file,
            ),
            DagError::DependencyCycle => self.dependencies_resolve() && self.single_producers()
                && !self.acyclic(),
            DagError::UnknownCallbackTarget { uuid } => self.valid() && self.first_unknown(
                watch,
                uuid,
            ),
        }
    }
}

/// Whether `file` is the first element of `s` that stands in `s` before
/// itself.
pub open spec fn first_repeated(s: Seq<FileUuid>, file: FileUuid) -> bool {
    exists|j: int|
        0 <= j < s.len() && #[trigger] s[j] == file && s.take(j).contains(file) && s.take(
            j,
        ).no_duplicates()
}

/// Whether `x` occurs in `v`.
pub fn contains_uuid(v: &Vec<u128>, x: u128) -> (found: bool)
    ensures
        found == v@.contains(x),
{
    let mut i: usize = 0;
    while i < v.len()
        invariant
            i <= v@.len(),
            forall|k: int| 0 <= k < i ==> v@[k] != x,
        decreases v@.len() - i,
    {
        if v[i] == x {
            return true;
        }
        i += 1;
    }
    false
}

/// The first position of `v` whose element stands in `v` before it.
fn first_duplicate(v: &Vec<u128>) -> (at: Option<usize>)
    ensures
        match at {
            Some(j) => j < v@.len() && v@.take(j as int).contains(v@[j as int]) && v@.take(
                j as int,
            ).no_duplicates(),
            None => v@.no_duplicates(),
        },
{
    let mut j: usize = 0;
    while j < v.len()
        invariant
            j <= v@.len(),
            v@.take(j as int).no_duplicates(),
        decreases v@.len() - j,
    {
        let mut i: usize = 0;
        let mut found: bool = false;
        while i < j
            invariant
                i <= j < v@.len(),
                found == exists|k: int| 0 <= k < i && v@[k] == v@[j as int],
            decreases j - i,
        {
            if v[i] == v[j] {
                found = true;
            }
            i += 1;
        }
        if found {
            proof {
                let k = choose|k: int| 0 <= k < j && v@[k] == v@[j as int];
                assert(v@.take(j as int)[k] == v@[j as int]);
            }
            return Some(j);
        }
        proof {
            let longer = v@.take(j + 1);
            assert forall|a: int, b: int|
                0 <= a < longer.len() && 0 <= b < longer.len() && a != b implies longer[a]
                != longer[b] by {
                if a < j && b < j {
                    assert(v@.take(j as int)[a] != v@.take(j as int)[b]);
                }
            }
        }
        j += 1;
    }
    assert(v@.take(j as int) == v@);
    None
}

/// The sources grow with the number of executions that are counted.
pub proof fn lemma_sources_grow(dag: &ExecutionDAGData, i: nat, n: nat)
    requires
        i <= n <= dag.execs().len(),
    ensures
        dag.sources_upto(i).len() <= dag.sources_upto(n).len(),
        dag.sources_upto(n).take(dag.sources_upto(i).len() as int) == dag.sources_upto(i),
    decreases n - i,
{
    if i < n {
        lemma_sources_grow(dag, i, (n - 1) as nat);
        let shorter = dag.sources_upto((n - 1) as nat);
        assert(dag.sources_upto(n) == shorter + dag.execs()[n - 1].makes());
        assert(dag.sources_upto(n).take(dag.sources_upto(i).len() as int) =~= shorter.take(
            dag.sources_upto(i).len() as int,
        ));
    } else {
        assert(dag.sources_upto(n).take(dag.sources_upto(i).len() as int) =~= dag.sources_upto(i));
    }
}

/// Where the `k`-th product of the `u`-th execution stands among the
/// sources.
pub proof fn lemma_product_is_source(dag: &ExecutionDAGData, u: int, k: int)
    requires
        0 <= u < dag.execs().len(),
        0 <= k < dag.execs()[u].makes().len(),
    ensures
        dag.provided_uuids().len() <= dag.sources_upto(u as nat).len(),
        dag.sources_upto(u as nat).len() + k < dag.sources_upto((u + 1) as nat).len()
            <= dag.sources().len(),
        dag.sources()[dag.sources_upto(u as nat).len() + k] == dag.execs()[u].makes()[k],
        dag.sources().contains(dag.execs()[u].makes()[k]),
{
    let upto = dag.sources_upto(u as nat);
    let next = dag.sources_upto((u + 1) as nat);
    assert(next == upto + dag.execs()[u].makes());
    lemma_sources_grow(dag, (u + 1) as nat, dag.execs().len());
    lemma_sources_grow(dag, 0, u as nat);
    let at = upto.len() + k;
    assert(dag.sources().take(next.len() as int)[at] == next[at]);
}

/// A supplied file is a source.
pub proof fn lemma_provided_is_source(dag: &ExecutionDAGData, p: int)
    requires
        0 <= p < dag.provided_uuids().len(),
    ensures
        p < dag.sources().len(),
        dag.sources()[p] == dag.provided_uuids()[p],
        dag.sources().contains(dag.provided_uuids()[p]),
{
    lemma_sources_grow(dag, 0, dag.execs().len());
    assert(dag.sources().take(dag.provided_uuids().len() as int)[p] == dag.provided_uuids()[p]);
}

/// Every source among the first `n` executions is a supplied file or a
/// product of one of them.
pub proof fn lemma_source_origin(dag: &ExecutionDAGData, n: nat, f: FileUuid)
    requires
        n <= dag.execs().len(),
        dag.sources_upto(n).contains(f),
    ensures
        dag.provided_uuids().contains(f) || exists|u: int|
            0 <= u < n && #[trigger] dag.execs()[u].makes().contains(f),
    decreases n,
{
    if n > 0 {
        let shorter = dag.sources_upto((n - 1) as nat);
        let last = dag.execs()[n - 1].makes();
        let at = choose|at: int| 0 <= at < dag.sources_upto(n).len() && dag.sources_upto(n)[at] == f;
        if at < shorter.len() {
            assert(shorter[at] == f);
            lemma_source_origin(dag, (n - 1) as nat, f);
        } else {
            assert(last[at - shorter.len()] == f);
            assert(dag.execs()[n - 1].makes().contains(f));
        }
    }
}

/// Where no file has two sources, a file has one producer at most, and a
/// supplied file has none.
pub proof fn lemma_single_producer(dag: &ExecutionDAGData, f: FileUuid, u: int, w: int)
    requires
        dag.single_producers(),
        0 <= u < dag.execs().len(),
        dag.execs()[u].makes().contains(f),
    ensures
        !dag.provided_uuids().contains(f),
        0 <= w < dag.execs().len() && dag.execs()[w].makes().contains(f) ==> w == u,
{
    let k = choose|k: int| 0 <= k < dag.execs()[u].makes().len() && dag.execs()[u].makes()[k] == f;
    lemma_product_is_source(dag, u, k);
    let at = dag.sources_upto(u as nat).len() + k;
    if dag.provided_uuids().contains(f) {
        let p = choose|p: int| 0 <= p < dag.provided_uuids().len() && dag.provided_uuids()[p] == f;
        lemma_provided_is_source(dag, p);
        assert(dag.sources()[p] == dag.sources()[at]);
    }
    if 0 <= w < dag.execs().len() && dag.execs()[w].makes().contains(f) && w != u {
        let l = choose|l: int|
            0 <= l < dag.execs()[w].makes().len() && dag.execs()[w].makes()[l] == f;
        lemma_product_is_source(dag, w, l);
        let other = dag.sources_upto(w as nat).len() + l;
        if w < u {
            lemma_sources_grow(dag, (w + 1) as nat, u as nat);
        } else {
            lemma_sources_grow(dag, (u + 1) as nat, w as nat);
        }
        assert(dag.sources()[other] == dag.sources()[at]);
    }
}

/// Whether the file `f` is at hand once the executions marked in `done`
/// have run.
spec fn at_hand(dag: &ExecutionDAGData, done: Seq<bool>, f: FileUuid) -> bool {
    dag.provided_uuids().contains(f) || exists|u: int|
        0 <= u < dag.execs().len() && done[u] && #[trigger] dag.execs()[u].makes().contains(f)
}

/// Whether the `v`-th execution could start once the executions marked in
/// `done` have run.
spec fn startable(dag: &ExecutionDAGData, done: Seq<bool>, v: int) -> bool {
    forall|k: int|
        0 <= k < dag.execs()[v].needs().len() ==> at_hand(
            dag,
            done,
            #[trigger] dag.execs()[v].needs()[k],
        )
}

/// Where the executions can be numbered along their dependencies, and
/// none of those left could start, none is left.
proof fn lemma_none_left(dag: &ExecutionDAGData, done: Seq<bool>, rank: Seq<nat>, w: int)
    requires
        dag.dependencies_resolve(),
        dag.ranked_by(rank),
        done.len() == dag.execs().len(),
        0 <= w < dag.execs().len(),
        forall|v: int| 0 <= v < dag.execs().len() && !done[v] ==> !startable(dag, done, v),
    ensures
        done[w],
    decreases rank[w],
{
    if !done[w] {
        let k = choose|k: int|
            0 <= k < dag.execs()[w].needs().len() && !at_hand(
                dag,
                done,
                #[trigger] dag.execs()[w].needs()[k],
            );
        let f = dag.execs()[w].needs()[k];
        assert(dag.sources().contains(f));
        lemma_source_origin(dag, dag.execs().len(), f);
        let u = choose|u: int|
            0 <= u < dag.execs().len() && #[trigger] dag.execs()[u].makes().contains(f);
        assert(dag.execs()[w].needs().contains(f));
        assert(dag.feeds(u, w));
        lemma_none_left(dag, done, rank, u);
    }
}

/// Whether every file of `needs` is at hand.
fn all_at_hand(
    dag: &ExecutionDAGData,
    made: &Vec<Vec<FileUuid>>,
    done: &Vec<bool>,
    needs: &Vec<FileUuid>,
) -> (yes: bool)
    requires
        made@.len() == dag.execs().len(),
        done@.len() == dag.execs().len(),
        forall|u: int| 0 <= u < made@.len() ==> (#[trigger] made@[u])@ == dag.execs()[u].makes(),
    ensures
        yes == forall|k: int| 0 <= k < needs@.len() ==> at_hand(dag, done@, #[trigger] needs@[k]),
{
    let mut k: usize = 0;
    while k < needs.len()
        invariant
            k <= needs@.len(),
            made@.len() == dag.execs().len(),
            done@.len() == dag.execs().len(),
            forall|u: int|
                0 <= u < made@.len() ==> (#[trigger] made@[u])@ == dag.execs()[u].makes(),
            forall|j: int| 0 <= j < k ==> at_hand(dag, done@, #[trigger] needs@[j]),
        decreases needs@.len() - k,
    {
        let f = needs[k];
        let mut found: bool = dag.provides(f);
        let mut u: usize = 0;
        while u < made.len()
            invariant
                u <= made@.len(),
                made@.len() == dag.execs().len(),
                done@.len() == dag.execs().len(),
                forall|w: int|
                    0 <= w < made@.len() ==> (#[trigger] made@[w])@ == dag.execs()[w].makes(),
                found == (dag.provided_uuids().contains(f) || exists|w: int|
                    0 <= w < u && done@[w] && #[trigger] dag.execs()[w].makes().contains(f)),
            decreases made@.len() - u,
        {
            if done[u] && contains_uuid(&made[u], f) {
                found = true;
            }
            u += 1;
        }
        if !found {
            assert(!at_hand(dag, done@, needs@[k as int]));
            return false;
        }
        k += 1;
    }
    true
}

/// How many executions are marked in `done`.
spec fn marked(done: Seq<bool>) -> nat
    decreases done.len(),
{
    if done.len() == 0 {
        0
    } else {
        marked(done.drop_last()) + if done.last() {
            1nat
        } else {
            0nat
        }
    }
}

/// There are no more marks than executions, and as many only where each
/// one is marked.
proof fn lemma_marked_all(done: Seq<bool>)
    ensures
        marked(done) <= done.len(),
        marked(done) == done.len() <==> forall|w: int| 0 <= w < done.len() ==> done[w],
    decreases done.len(),
{
    if done.len() > 0 {
        let front = done.drop_last();
        lemma_marked_all(front);
        if marked(done) == done.len() {
            assert forall|w: int| 0 <= w < done.len() implies done[w] by {
                if w < front.len() {
                    assert(front[w]);
                }
            }
        }
        if forall|w: int| 0 <= w < done.len() ==> done[w] {
            assert forall|w: int| 0 <= w < front.len() implies front[w] by {
                assert(done[w]);
            }
        }
    }
}

/// A new mark is one mark more.
proof fn lemma_marked_one_more(done: Seq<bool>, v: int)
    requires
        0 <= v < done.len(),
        !done[v],
    ensures
        marked(done.update(v, true)) == marked(done) + 1,
    decreases done.len(),
{
    let after = done.update(v, true);
    if v == done.len() - 1 {
        assert(after.drop_last() == done.drop_last());
    } else {
        lemma_marked_one_more(done.drop_last(), v);
        assert(after.drop_last() == done.drop_last().update(v, true));
    }
}

/// Whether the executions can be numbered along their dependencies.
fn check_acyclic(dag: &ExecutionDAGData) -> (yes: bool)
    requires
        dag.dependencies_resolve(),
        dag.single_producers(),
    ensures
        yes == dag.acyclic(),
{
    let execs = dag.executions();
    let n = execs.len();
    let mut made: Vec<Vec<FileUuid>> = Vec::new();
    let mut needs: Vec<Vec<FileUuid>> = Vec::new();
    let mut done: Vec<bool> = Vec::new();
    let mut i: usize = 0;
    while i < n
        invariant
            i <= n,
            n == execs@.len(),
            execs@ == dag.execs(),
            made@.len() == i,
            needs@.len() == i,
            done@.len() == i,
            marked(done@) == 0,
            forall|u: int| 0 <= u < i ==> (#[trigger] made@[u])@ == dag.execs()[u].makes(),
            forall|u: int| 0 <= u < i ==> (#[trigger] needs@[u])@ == dag.execs()[u].needs(),
            forall|u: int| 0 <= u < i ==> !(#[trigger] done@[u]),
        decreases n - i,
    {
        made.push(execs[i].products());
        needs.push(execs[i].dependencies());
        let ghost before = done@;
        done.push(false);
        assert(done@.drop_last() == before);
        i += 1;
    }
    let ghost mut rank: Seq<nat> = Seq::new(n as nat, |u: int| 0nat);
    let mut count: usize = 0;
    let mut progress: bool = true;
    while progress
        invariant
            n == dag.execs().len(),
            dag.dependencies_resolve(),
            dag.single_producers(),
            made@.len() == n,
            needs@.len() == n,
            done@.len() == n,
            rank.len() == n,
            count == marked(done@),
            count <= n,
            forall|u: int| 0 <= u < n ==> (#[trigger] made@[u])@ == dag.execs()[u].makes(),
            forall|u: int| 0 <= u < n ==> (#[trigger] needs@[u])@ == dag.execs()[u].needs(),
            forall|u: int| 0 <= u < n && done@[u] ==> #[trigger] rank[u] < count,
            forall|u: int, v: int|
                0 <= u < n && 0 <= v < n && done@[v] && #[trigger] dag.feeds(u, v) ==> done@[u]
                    && rank[u] < rank[v],
            !progress ==> forall|w: int| 0 <= w < n && !done@[w] ==> !startable(dag, done@, w),
        decreases
                (n - count) + (if progress {
                    1int
                } else {
                    0int
                }),
    {
        let before = count;
        let mut v: usize = 0;
        while v < n
            invariant
                v <= n,
                before <= count <= n,
                n == dag.execs().len(),
                dag.dependencies_resolve(),
                dag.single_producers(),
                made@.len() == n,
                needs@.len() == n,
                done@.len() == n,
                rank.len() == n,
                count == marked(done@),
                forall|u: int| 0 <= u < n ==> (#[trigger] made@[u])@ == dag.execs()[u].makes(),
                forall|u: int| 0 <= u < n ==> (#[trigger] needs@[u])@ == dag.execs()[u].needs(),
                forall|u: int| 0 <= u < n && done@[u] ==> #[trigger] rank[u] < count,
                forall|u: int, w: int|
                    0 <= u < n && 0 <= w < n && done@[w] && #[trigger] dag.feeds(u, w) ==> done@[u]
                        && rank[u] < rank[w],
                count == before ==> forall|w: int|
                    0 <= w < v && !done@[w] ==> !startable(dag, done@, w),
            decreases n - v,
        {
            if !done[v] {
                let ready = all_at_hand(dag, &made, &done, &needs[v]);
                if ready {
                    proof {
                        assert forall|u: int| 0 <= u < n && dag.feeds(u, v as int) implies done@[u]
                            && rank[u] < count by {
                            let f = choose|f: FileUuid|
                                dag.execs()[u].makes().contains(f) && #[trigger] dag.execs()[v as int].needs().contains(
                                f);
                            let k = choose|k: int|
                                0 <= k < dag.execs()[v as int].needs().len()
                                    && dag.execs()[v as int].needs()[k] == f;
                            assert(at_hand(dag, done@, needs@[v as int]@[k]));
                            lemma_single_producer(dag, f, u, u);
                            let w = choose|w: int|
                                0 <= w < n && done@[w] && #[trigger] dag.execs()[w].makes().contains(
                                    f,
                                );
                            lemma_single_producer(dag, f, u, w);
                        }
                        lemma_marked_all(done@);
                        lemma_marked_one_more(done@, v as int);
                        rank = rank.update(v as int, count as nat);
                    }
                    done[v] = true;
                    count += 1;
                } else {
                    proof {
                        let k = choose|k: int|
                            0 <= k < needs@[v as int]@.len() && !at_hand(
                                dag,
                                done@,
                                #[trigger] needs@[v as int]@[k],
                            );
                        assert(!at_hand(dag, done@, dag.execs()[v as int].needs()[k]));
                    }
                }
            }
            v += 1;
        }
        progress = count > before;
    }
    proof {
        lemma_marked_all(done@);
        if count == n {
            assert(dag.ranked_by(rank));
        } else {
            let w = choose|w: int| 0 <= w < n && !done@[w];
            assert forall|r: Seq<nat>| !dag.ranked_by(r) by {
                if dag.ranked_by(r) {
                    lemma_none_left(dag, done@, r, w);
                }
            }
        }
    }
    count == n
}

/// Every source of a file, in order.
fn collect_sources(dag: &ExecutionDAGData) -> (all: Vec<FileUuid>)
    ensures
        all@ == dag.sources(),
{
    let files = dag.provided_files();
    let execs = dag.executions();
    let mut all: Vec<FileUuid> = Vec::new();
    let mut p: usize = 0;
    while p < files.len()
        invariant
            p <= files@.len(),
            files@ == dag.provided(),
            all@ == dag.provided_uuids().take(p as int),
        decreases files@.len() - p,
    {
        all.push(files[p].uuid());
        assert(all@ =~= dag.provided_uuids().take(p + 1));
        p += 1;
    }
    assert(dag.provided_uuids().take(p as int) == dag.provided_uuids());
    let mut i: usize = 0;
    while i < execs.len()
        invariant
            i <= execs@.len(),
            execs@ == dag.execs(),
            all@ == dag.sources_upto(i as nat),
        decreases execs@.len() - i,
    {
        let mut made = execs[i].products();
        all.append(&mut made);
        i += 1;
    }
    all
}

/// Checks that a graph can be scheduled and that everything the client
/// watches is in it.
///
/// The checks are made in this order, and the first that fails gives the
/// error: every dependency has a source; no file has two sources; no
/// execution waits for itself; what is watched is in the graph.
pub fn check_dag(dag: &ExecutionDAGData, watch: &ExecutionDAGWatchSet) -> (res: Result<
    (),
    DagError,
>)
    ensures
        res is Ok <==> dag.valid() && dag.knows(watch),
        res matches Err(error) ==> dag.refused_with(watch, error),
{
    let all = collect_sources(dag);
    let execs = dag.executions();
    let mut i: usize = 0;
    while i < execs.len()
        invariant
            i <= execs@.len(),
            execs@ == dag.execs(),
            all@ == dag.sources(),
            dag.resolve_before(i as int, 0),
        decreases execs@.len() - i,
    {
        let needs = execs[i].dependencies();
        let mut k: usize = 0;
        while k < needs.len()
            invariant
                i < execs@.len(),
                k <= needs@.len(),
                execs@ == dag.execs(),
                needs@ == dag.execs()[i as int].needs(),
                all@ == dag.sources(),
                dag.resolve_before(i as int, k as int),
            decreases needs@.len() - k,
        {
            if !contains_uuid(&all, needs[k]) {
                assert(dag.first_missing(execs@[i as int].uuid, needs@[k as int]));
                assert(!dag.dependencies_resolve());
                return Err(
                    DagError::MissingDependency { execution: execs[i].uuid, file: needs[k] },
                );
            }
            k += 1;
        }
        i += 1;
    }
    assert(dag.dependencies_resolve());
    match first_duplicate(&all) {
        Some(j) => {
            assert(first_repeated(all@, all@[j as int]));
            assert(!all@.no_duplicates()) by {
                let at = choose|at: int|
                    0 <= at < j && all@.take(j as int)[at] == all@[j as int];
                assert(all@[at] == all@[j as int]);
            }
            return Err(DagError::DuplicateProducer { file: all[j] });
        },
        None => {},
    }
    if !check_acyclic(dag) {
        return Err(DagError::DependencyCycle);
    }
    let mut e: usize = 0;
    while e < watch.executions.len()
        invariant
            e <= watch.executions@.len(),
            dag.valid(),
            forall|j: int| 0 <= j < e ==> dag.has_execution(#[trigger] watch.executions@[j]),
        decreases watch.executions@.len() - e,
    {
        let uuid = watch.executions[e];
        match dag.find_execution(uuid) {
            Some(at) => {
                assert(dag.execs()[at as int].uuid == uuid);
            },
            None => {
                assert(!dag.has_execution(uuid));
                assert(dag.first_unknown(watch, uuid));
                assert(!dag.knows(watch));
                return Err(DagError::UnknownCallbackTarget { uuid });
            },
        }
        e += 1;
    }
    let mut f: usize = 0;
    while f < watch.files.len()
        invariant
            f <= watch.files@.len(),
            dag.valid(),
            all@ == dag.sources(),
            forall|j: int|
                0 <= j < watch.executions@.len() ==> dag.has_execution(
                    #[trigger] watch.executions@[j],
                ),
            forall|j: int| 0 <= j < f ==> dag.has_file(#[trigger] watch.files@[j]),
        decreases watch.files@.len() - f,
    {
        let uuid = watch.files[f];
        if !contains_uuid(&all, uuid) {
            assert(dag.first_unknown(watch, uuid));
            assert(!dag.knows(watch));
            return Err(DagError::UnknownCallbackTarget { uuid });
        }
        f += 1;
    }
    Ok(())
}

} // verus!
