//! Deferred submission: a bounded queue of operations that wait for a
//! context in which they can be registered.
//!
//! An interrupt handler cannot wait for the proof log. It puts what
//! happened into the queue; a worker later takes the operations out in
//! order and submits them to the registry. A full queue drops the operation
//! and counts the loss for its subsystem.

use vstd::prelude::*;
use std::collections::VecDeque;
use crate::operation_proofs::{OperationProof, PendingOperation, Subsystem, SUBSYSTEM_COUNT};
use crate::verification::{next_proof, VerificationError, VerificationRegistry};

verus! {

/// The history after the registry took the operations `ops` in order,
/// starting from `accepted`.
#[verifier::opaque]
pub open spec fn submit_all(accepted: Seq<OperationProof>, ops: Seq<PendingOperation>) -> Seq<
    OperationProof,
>
    decreases ops.len(),
{
    if ops.len() == 0 {
        accepted
    } else {
        let prior = submit_all(accepted, ops.drop_last());
        prior.push(next_proof(prior, ops.last()))
    }
}

/// Taking no operation leaves the history as it is.
pub proof fn lemma_submit_none(accepted: Seq<OperationProof>)
    ensures
        submit_all(accepted, Seq::empty()) == accepted,
{
    reveal(submit_all);
}

/// Taking one more operation adds the proof that the registry makes of it
/// after the others.
pub proof fn lemma_submit_one_more(
    accepted: Seq<OperationProof>,
    ops: Seq<PendingOperation>,
    op: PendingOperation,
)
    ensures
        submit_all(accepted, ops.push(op)) == submit_all(accepted, ops).push(
            next_proof(submit_all(accepted, ops), op),
        ),
{
    reveal(submit_all);
    assert(ops.push(op).drop_last() =~= ops);
}

/// What one more registered operation means for the queue and the
/// history.
proof fn lemma_drain_step(
    start: Seq<OperationProof>,
    ops: Seq<PendingOperation>,
    n: int,
    rest: Seq<PendingOperation>,
    accepted: Seq<OperationProof>,
)
    requires
        0 <= n < ops.len(),
        rest == ops.skip(n).skip(1),
        accepted == submit_all(start, ops.take(n)).push(
            next_proof(submit_all(start, ops.take(n)), ops[n]),
        ),
    ensures
        rest == ops.skip(n + 1),
        accepted == submit_all(start, ops.take(n + 1)),
{
    assert(ops.take(n + 1) =~= ops.take(n).push(ops[n]));
    lemma_submit_one_more(start, ops.take(n), ops[n]);
    assert(ops.skip(n).skip(1) =~= ops.skip(n + 1));
}

/// One more than `count`, unless the counter is at its end.
pub open spec fn bumped(count: u64) -> u64 {
    if count < u64::MAX {
        (count + 1) as u64
    } else {
        count
    }
}

/// The queue of deferred operations.
pub struct DeferredRing {
    slots: VecDeque<PendingOperation>,
    capacity: usize,
    dropped: Vec<u64>,
}

impl DeferredRing {
    /// The operations that wait, oldest first.
    pub closed spec fn pending(self) -> Seq<PendingOperation> {
        self.slots@
    }

    /// Number of operations that the queue holds at most.
    pub closed spec fn spec_capacity(self) -> usize {
        self.capacity
    }

    /// Number of operations of `subsystem` that were dropped.
    pub closed spec fn spec_dropped(self, subsystem: Subsystem) -> u64 {
        self.dropped@[subsystem.spec_tag() as int]
    }

    /// The invariant of a queue: it holds no more than its capacity.
    pub closed spec fn wf(self) -> bool {
        &&& self.slots@.len() <= self.capacity
        &&& self.dropped@.len() == 4
    }

    /// An empty queue for at most `capacity` operations.
    pub fn new(capacity: usize) -> (ring: DeferredRing)
        ensures
            ring.wf(),
            ring.pending() == Seq::<PendingOperation>::empty(),
            ring.spec_capacity() == capacity,
            forall|s: Subsystem| #[trigger] ring.spec_dropped(s) == 0,
    {
        let mut dropped: Vec<u64> = Vec::new();
        let mut i: usize = 0;
        while i < SUBSYSTEM_COUNT
            invariant
                i <= 4,
                dropped@.len() == i,
                forall|j: int| 0 <= j < i ==> dropped@[j] == 0,
            decreases 4 - i,
        {
            dropped.push(0);
            i += 1;
        }
        DeferredRing { slots: VecDeque::new(), capacity, dropped }
    }

    /// Puts an operation into the queue. A full queue drops it, counts the
    /// loss for the operation's subsystem, and reports the count.
    pub fn submit_deferred(&mut self, op: PendingOperation) -> (result: Result<(), VerificationError>)
        requires
            old(self).wf(),
        ensures
            final(self).wf(),
            final(self).spec_capacity() == old(self).spec_capacity(),
            final(self).pending().len() <= final(self).spec_capacity(),
            old(self).pending().len() < old(self).spec_capacity() ==> {
                &&& result is Ok
                &&& final(self).pending() == old(self).pending().push(op)
                &&& forall|s: Subsystem| #[trigger]
                    final(self).spec_dropped(s) == old(self).spec_dropped(s)
            },
            old(self).pending().len() >= old(self).spec_capacity() ==> {
                let subsystem = op.kind.spec_subsystem();
                &&& result == Err::<(), VerificationError>(
                    VerificationError::RingOverflow {
                        subsystem,
                        dropped: bumped(old(self).spec_dropped(subsystem)),
                    },
                )
                &&& final(self).pending() == old(self).pending()
                &&& final(self).spec_dropped(subsystem) == bumped(old(self).spec_dropped(subsystem))
                &&& forall|s: Subsystem|
                    s != subsystem ==> #[trigger] final(self).spec_dropped(s) == old(
                        self,
                    ).spec_dropped(s)
            },
    {
        if self.slots.len() < self.capacity {
            self.slots.push_back(op);
            Ok(())
        } else {
            let subsystem = op.kind.subsystem();
            let i = subsystem.index();
            let count = self.dropped[i];
            let bumped_count = if count < u64::MAX {
                count + 1
            } else {
                count
            };
            self.dropped[i] = bumped_count;
            Err(VerificationError::RingOverflow { subsystem, dropped: bumped_count })
        }
    }

    /// A queue never holds more than its capacity.
    pub proof fn lemma_ring_bounded(self)
        requires
            self.wf(),
        ensures
            self.pending().len() <= self.spec_capacity(),
    {
    }

    /// Number of operations that wait: never more than the capacity.
    pub fn len(&self) -> (n: usize)
        requires
            self.wf(),
        ensures
            n == self.pending().len(),
            n <= self.spec_capacity(),
    {
        self.slots.len()
    }

    /// Number of operations that the queue holds at most.
    pub fn capacity(&self) -> (n: usize)
        ensures
            n == self.spec_capacity(),
    {
        self.capacity
    }

    /// Number of operations of `subsystem` that were dropped.
    pub fn dropped(&self, subsystem: Subsystem) -> (n: u64)
        requires
            self.wf(),
        ensures
            n == self.spec_dropped(subsystem),
    {
        self.dropped[subsystem.index()]
    }

    /// Submits the oldest waiting operation to the registry, and takes it
    /// out of the queue if the registry took it.
    fn take_front(&mut self, registry: &mut VerificationRegistry) -> (taken: bool)
        requires
            old(self).wf(),
            old(registry).wf(),
            old(self).pending().len() > 0,
        ensures
            final(self).wf(),
            final(registry).wf(),
            final(self).capacity == old(self).capacity,
            final(self).dropped == old(self).dropped,
            taken ==> final(self).pending() == old(self).pending().skip(1),
            taken ==> final(registry).accepted() == old(registry).accepted().push(
                next_proof(old(registry).accepted(), old(self).pending()[0]),
            ),
            !taken ==> final(self).pending() == old(self).pending(),
            !taken ==> *final(registry) == *old(registry),
            !taken ==> !old(registry).has_room_for(old(self).pending()[0]),
    {
        let op = self.slots[0];
        match registry.submit(op) {
            Ok(_) => {
                let _ = self.slots.pop_front();
                true
            },
            Err(_) => false,
        }
    }

    /// Takes the waiting operations out in order and submits each to the
    /// registry, until the queue is empty or the proof log refuses one.
    /// Returns how many were registered; the others stay in the queue.
    pub fn drain(&mut self, registry: &mut VerificationRegistry) -> (ingested: usize)
        requires
            old(self).wf(),
            old(registry).wf(),
        ensures
            final(self).wf(),
            final(registry).wf(),
            final(self).spec_capacity() == old(self).spec_capacity(),
            forall|s: Subsystem| #[trigger] final(self).spec_dropped(s) == old(self).spec_dropped(s),
            ingested <= old(self).pending().len(),
            final(self).pending() == old(self).pending().skip(ingested as int),
            final(registry).accepted() == submit_all(
                old(registry).accepted(),
                old(self).pending().take(ingested as int),
            ),
            ingested < old(self).pending().len() ==> !final(registry).has_room_for(
                old(self).pending()[ingested as int],
            ),
    {
        let ghost ops = self.slots@;
        let ghost start = registry.accepted();
        let ghost capacity = self.capacity;
        let ghost dropped = self.dropped;
        let waiting = self.slots.len();
        let mut ingested: usize = 0;
        let mut stopped = false;
        proof {
            assert(ops.take(0) =~= Seq::<PendingOperation>::empty());
            assert(ops.skip(0) =~= ops);
            lemma_submit_none(start);
        }
        while !stopped && self.slots.len() > 0
            invariant
                self.wf(),
                registry.wf(),
                self.capacity == capacity,
                self.dropped == dropped,
                ingested <= ops.len(),
                ops.len() == waiting,
                self.slots@ == ops.skip(ingested as int),
                registry.accepted() == submit_all(start, ops.take(ingested as int)),
                stopped ==> ingested < ops.len() && !registry.has_room_for(ops[ingested as int]),
            decreases
                    if stopped {
                        0
                    } else {
                        ops.len() - ingested + 1
                    },
        {
            let ghost front = self.slots@[0];
            assert(front == ops[ingested as int]);
            if self.take_front(registry) {
                proof {
                    lemma_drain_step(start, ops, ingested as int, self.slots@, registry.accepted());
                }
                ingested += 1;
            } else {
                stopped = true;
            }
        }
        ingested
    }
}

} // verus!
