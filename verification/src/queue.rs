//! The queue of the executions that can start.

use crate::dag::ExecutionUuid;
use vstd::prelude::*;

verus! {

/// An execution that can start.
#[derive(Clone, Copy, Debug, PartialEq, Eq, Structural)]
pub struct ReadyExec {
    /// The priority of the execution.
    pub priority: Option<u64>,
    /// The execution.
    pub uuid: ExecutionUuid,
}

/// A priority as a number: none is below every priority.
pub open spec fn priority_level(priority: Option<u64>) -> int {
    match priority {
        Some(p) => p as int,
        None => -1,
    }
}

impl ReadyExec {
    /// Whether `self` is served after `other`: it has the lower
    /// priority or, with the same priority, the lower identifier.
    pub open spec fn after(self, other: ReadyExec) -> bool {
        priority_level(self.priority) < priority_level(other.priority) || (priority_level(
            self.priority,
        ) == priority_level(other.priority) && self.uuid < other.uuid)
    }

    /// Whether `self` is served after `other`.
    pub fn served_after(&self, other: &ReadyExec) -> (yes: bool)
        ensures
            yes == self.after(*other),
    {
        match (self.priority, other.priority) {
            (None, None) => self.uuid < other.uuid,
            (None, Some(_)) => true,
            (Some(_), None) => false,
            (Some(p), Some(q)) => p < q || (p == q && self.uuid < other.uuid),
        }
    }
}

/// Whether each entry of `queue` is served after the entries behind it:
/// the last entry is the next to be served.
pub open spec fn in_service_order(queue: Seq<ReadyExec>) -> bool {
    forall|i: int, j: int| 0 <= i < j < queue.len() ==> (#[trigger] queue[i]).after(#[trigger] queue[j])
}

/// Whether the execution `uuid` stands in `queue`.
pub open spec fn queued(queue: Seq<ReadyExec>, uuid: ExecutionUuid) -> bool {
    exists|k: int| 0 <= k < queue.len() && (#[trigger] queue[k]).uuid == uuid
}

/// Puts `entry` at its place in a queue that is in service order.
pub(crate) fn enqueue(queue: &mut Vec<ReadyExec>, entry: ReadyExec)
    requires
        in_service_order(old(queue)@),
        !queued(old(queue)@, entry.uuid),
    ensures
        in_service_order(final(queue)@),
        exists|at: int|
            0 <= at <= old(queue)@.len() && final(queue)@ == old(queue)@.insert(at, entry),
        forall|uuid: ExecutionUuid|
            queued(final(queue)@, uuid) <==> (uuid == entry.uuid || queued(old(queue)@, uuid)),
        forall|e: ReadyExec| final(queue)@.contains(e) <==> (e == entry || old(queue)@.contains(e)),
{
    let mut at: usize = 0;
    while at < queue.len() && queue[at].served_after(&entry)
        invariant
            at <= queue@.len(),
            queue@ == old(queue)@,
            forall|k: int| 0 <= k < at ==> (#[trigger] queue@[k]).after(entry),
        decreases queue@.len() - at,
    {
        at += 1;
    }
    let ghost before = queue@;
    proof {
        assert forall|k: int| at <= k < before.len() implies entry.after(#[trigger] before[k]) by {
            assert(before[k].uuid != entry.uuid);
            if k > at {
                assert(before[at as int].after(before[k]));
            }
        }
    }
    queue.insert(at, entry);
    proof {
        let after = queue@;
        assert(after == before.insert(at as int, entry));
        assert forall|i: int, j: int| 0 <= i < j < after.len() implies (#[trigger] after[i]).after(
            #[trigger] after[j],
        ) by {
            if i < at && j > at {
                assert(before[i].after(before[j - 1]));
            } else if i < at && j < at {
                assert(before[i].after(before[j]));
            } else if i > at {
                assert(before[i - 1].after(before[j - 1]));
            }
        }
        assert forall|uuid: ExecutionUuid|
            queued(after, uuid) <==> (uuid == entry.uuid || queued(before, uuid)) by {
            if queued(after, uuid) {
                let k = choose|k: int| 0 <= k < after.len() && (#[trigger] after[k]).uuid == uuid;
                if k < at {
                    assert(before[k].uuid == uuid);
                } else if k > at {
                    assert(before[k - 1].uuid == uuid);
                }
            }
            if uuid == entry.uuid {
                assert(after[at as int].uuid == uuid);
            }
            if queued(before, uuid) {
                let k = choose|k: int| 0 <= k < before.len() && (#[trigger] before[k]).uuid == uuid;
                if k < at {
                    assert(after[k].uuid == uuid);
                } else {
                    assert(after[k + 1].uuid == uuid);
                }
            }
        }
        assert forall|e: ReadyExec| after.contains(e) <==> (e == entry || before.contains(e)) by {
            if after.contains(e) {
                let k = choose|k: int| 0 <= k < after.len() && after[k] == e;
                if k < at {
                    assert(before[k] == e);
                } else if k > at {
                    assert(before[k - 1] == e);
                }
            }
            if e == entry {
                assert(after[at as int] == e);
            }
            if before.contains(e) {
                let k = choose|k: int| 0 <= k < before.len() && before[k] == e;
                if k < at {
                    assert(after[k] == e);
                } else {
                    assert(after[k + 1] == e);
                }
            }
        }
    }
}

/// How often `x` occurs in `s`.
pub open spec fn occurrences(s: Seq<u128>, x: u128) -> nat
    decreases s.len(),
{
    if s.len() == 0 {
        0
    } else {
        occurrences(s.drop_last(), x) + if s.last() == x {
            1nat
        } else {
            0nat
        }
    }
}

/// An element occurs in a sequence where it occurs at least once.
pub proof fn lemma_occurs(s: Seq<u128>, x: u128)
    ensures
        occurrences(s, x) > 0 <==> s.contains(x),
        occurrences(s, x) <= s.len(),
    decreases s.len(),
{
    if s.len() > 0 {
        lemma_occurs(s.drop_last(), x);
        if s.contains(x) {
            let k = choose|k: int| 0 <= k < s.len() && s[k] == x;
            if k < s.len() - 1 {
                assert(s.drop_last()[k] == x);
            }
        }
        if s.drop_last().contains(x) {
            let k = choose|k: int| 0 <= k < s.drop_last().len() && s.drop_last()[k] == x;
            assert(s[k] == x);
        }
    }
}

/// One more element is one more occurrence of it, and of nothing else.
pub proof fn lemma_occurrences_push(s: Seq<u128>, y: u128, x: u128)
    ensures
        occurrences(s.push(y), x) == occurrences(s, x) + if y == x {
            1nat
        } else {
            0nat
        },
{
    assert(s.push(y).drop_last() == s);
}

} // verus!
