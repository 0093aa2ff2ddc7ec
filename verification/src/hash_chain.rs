//! The hash chain of one subsystem.
//!
//! Each proof hash appended to the chain is combined with the link before
//! it, so the last link depends on every proof hash ever appended. The chain
//! keeps a bounded tail of its entries in memory; what it evicts is summed up
//! in the anchor, the link just before the oldest entry kept.

use vstd::prelude::*;
use std::collections::VecDeque;
use crate::hash;
use crate::hash::spec_combine;
use crate::verification::VerificationError;

verus! {

/// One entry of a hash chain.
#[derive(Clone, Copy, Debug, PartialEq, Eq, Structural)]
pub struct ChainEntry {
    /// The operation whose proof the entry links.
    pub op_id: u64,
    /// The proof's hash.
    pub proof_hash: hash::Hash,
    /// The link before this entry combined with `proof_hash`.
    pub link_hash: hash::Hash,
}

/// Number of entries that a chain keeps in memory unless told otherwise.
pub const DEFAULT_CHAIN_CAPACITY: usize = 1024;

/// The link reached from `seed` by appending `hashes` in order.
pub open spec fn chain_link(seed: hash::Hash, hashes: Seq<hash::Hash>) -> hash::Hash
    decreases hashes.len(),
{
    if hashes.len() == 0 {
        seed
    } else {
        spec_combine(chain_link(seed, hashes.drop_last()), hashes.last())
    }
}

/// The link that entry `i` of `entries` continues: the anchor for the first
/// entry, else the link of the entry before.
pub open spec fn link_before(anchor: hash::Hash, entries: Seq<ChainEntry>, i: int) -> hash::Hash {
    if i == 0 {
        anchor
    } else {
        entries[i - 1].link_hash
    }
}

/// Whether entry `i` of `entries` carries the link that follows from the
/// link before it.
pub open spec fn link_holds(anchor: hash::Hash, entries: Seq<ChainEntry>, i: int) -> bool {
    entries[i].link_hash == spec_combine(link_before(anchor, entries, i), entries[i].proof_hash)
}

/// Whether every entry of `entries` carries the right link, from `anchor`
/// on.
pub open spec fn entries_linked(anchor: hash::Hash, entries: Seq<ChainEntry>) -> bool {
    forall|i: int| 0 <= i < entries.len() ==> #[trigger] link_holds(anchor, entries, i)
}

/// Whether entry `i` is the first of `entries` whose link does not hold.
pub open spec fn is_first_break(anchor: hash::Hash, entries: Seq<ChainEntry>, i: int) -> bool {
    &&& 0 <= i < entries.len()
    &&& !link_holds(anchor, entries, i)
    &&& forall|j: int| 0 <= j < i ==> #[trigger] link_holds(anchor, entries, j)
}

/// The proof hashes of `entries`, in order.
pub open spec fn proof_hashes(entries: Seq<ChainEntry>) -> Seq<hash::Hash> {
    Seq::new(entries.len(), |i: int| entries[i].proof_hash)
}

/// Appending one more hash combines it with the link reached so far.
pub proof fn lemma_chain_link_push(seed: hash::Hash, hashes: Seq<hash::Hash>, next: hash::Hash)
    ensures
        chain_link(seed, hashes.push(next)) == spec_combine(chain_link(seed, hashes), next),
{
    assert(hashes.push(next).drop_last() =~= hashes);
}

/// Linked entries end in the link reached from the anchor by their proof
/// hashes.
pub proof fn lemma_linked_entries_reach(anchor: hash::Hash, entries: Seq<ChainEntry>)
    requires
        entries_linked(anchor, entries),
    ensures
        link_before(anchor, entries, entries.len() as int) == chain_link(
            anchor,
            proof_hashes(entries),
        ),
    decreases entries.len(),
{
    if entries.len() > 0 {
        let init = entries.drop_last();
        assert forall|i: int| 0 <= i < init.len() implies #[trigger] link_holds(anchor, init, i) by {
            assert(link_holds(anchor, entries, i));
        }
        lemma_linked_entries_reach(anchor, init);
        assert(proof_hashes(entries).drop_last() =~= proof_hashes(init));
        assert(link_holds(anchor, entries, entries.len() - 1));
    }
}

/// Computes the link reached from `seed` by appending `proof_hashes` in
/// order.
pub fn replay_from(seed: hash::Hash, proof_hashes: &[hash::Hash]) -> (link: hash::Hash)
    ensures
        link == chain_link(seed, proof_hashes@),
{
    let n = proof_hashes.len();
    let mut link = seed;
    let mut i: usize = 0;
    while i < n
        invariant
            i <= n,
            n == proof_hashes@.len(),
            link == chain_link(seed, proof_hashes@.take(i as int)),
        decreases n - i,
    {
        proof {
            assert(proof_hashes@.take(i + 1) =~= proof_hashes@.take(i as int).push(proof_hashes@[i as int]));
            lemma_chain_link_push(seed, proof_hashes@.take(i as int), proof_hashes@[i as int]);
        }
        link = hash::combine(&link, &proof_hashes[i]);
        i += 1;
    }
    assert(proof_hashes@.take(n as int) =~= proof_hashes@);
    link
}

/// Replays `entries` from `anchor` and checks every link. Reports the
/// operation of the first entry whose link does not follow from the one
/// before.
pub fn verify_entries(anchor: hash::Hash, entries: &[ChainEntry]) -> (result: Result<
    (),
    VerificationError,
>)
    ensures
        result is Ok <==> entries_linked(anchor, entries@),
        result matches Err(e) ==> exists|i: int|
            #[trigger] is_first_break(anchor, entries@, i) && e == (VerificationError::ChainBroken {
                at_op_id: entries@[i].op_id,
            }),
{
    let n = entries.len();
    let mut prev = anchor;
    let mut i: usize = 0;
    while i < n
        invariant
            i <= n,
            n == entries@.len(),
            prev == link_before(anchor, entries@, i as int),
            forall|j: int| 0 <= j < i ==> #[trigger] link_holds(anchor, entries@, j),
        decreases n - i,
    {
        let expected = hash::combine(&prev, &entries[i].proof_hash);
        if expected != entries[i].link_hash {
            assert(is_first_break(anchor, entries@, i as int));
            return Err(VerificationError::ChainBroken { at_op_id: entries[i].op_id });
        }
        prev = entries[i].link_hash;
        i += 1;
    }
    Ok(())
}

/// The hash chain of one subsystem.
pub struct HashChain {
    anchor: hash::Hash,
    last_link: hash::Hash,
    entries: VecDeque<ChainEntry>,
    capacity: usize,
    history: Ghost<Seq<hash::Hash>>,
}

impl HashChain {
    /// Every proof hash appended to the chain since it was made, in order.
    pub closed spec fn history(self) -> Seq<hash::Hash> {
        self.history@
    }

    /// The entries kept in memory, oldest first.
    pub closed spec fn tail(self) -> Seq<ChainEntry> {
        self.entries@
    }

    /// The link just before the oldest entry kept.
    pub closed spec fn spec_anchor(self) -> hash::Hash {
        self.anchor
    }

    /// The newest link.
    pub closed spec fn spec_last_link(self) -> hash::Hash {
        self.last_link
    }

    /// Number of entries that the chain keeps in memory at most.
    pub closed spec fn spec_capacity(self) -> usize {
        self.capacity
    }

    /// Number of proof hashes that were evicted from memory.
    pub open spec fn evicted(self) -> int {
        self.history().len() - self.tail().len()
    }

    /// The invariant of a chain: the tail holds at most `capacity` entries,
    /// which are the last ones appended and carry the right links from the
    /// anchor on; the anchor sums up what was evicted; and the newest link is
    /// the one reached from the zero hash by the whole history.
    pub open spec fn wf(self) -> bool {
        &&& self.tail().len() <= self.spec_capacity()
        &&& self.tail().len() <= self.history().len()
        &&& self.spec_anchor() == chain_link(
            hash::Hash::spec_zero(),
            self.history().take(self.evicted()),
        )
        &&& proof_hashes(self.tail()) == self.history().skip(self.evicted())
        &&& entries_linked(self.spec_anchor(), self.tail())
        &&& self.spec_last_link() == link_before(
            self.spec_anchor(),
            self.tail(),
            self.tail().len() as int,
        )
    }

    /// An empty chain that keeps at most `capacity` entries in memory.
    pub fn new(capacity: usize) -> (chain: HashChain)
        ensures
            chain.wf(),
            chain.history() == Seq::<hash::Hash>::empty(),
            chain.tail() == Seq::<ChainEntry>::empty(),
            chain.spec_capacity() == capacity,
            chain.spec_last_link() == hash::Hash::spec_zero(),
            chain.spec_anchor() == hash::Hash::spec_zero(),
    {
        let chain = HashChain {
            anchor: hash::Hash::zero(),
            last_link: hash::Hash::zero(),
            entries: VecDeque::new(),
            capacity,
            history: Ghost(Seq::empty()),
        };
        assert(chain.history().take(0) =~= Seq::<hash::Hash>::empty());
        assert(proof_hashes(chain.tail()) =~= chain.history().skip(0));
        chain
    }

    /// Appends the proof hash of operation `op_id`: the newest link becomes
    /// the old one combined with `proof_hash`. When the tail is full, its
    /// oldest entry leaves memory. Returns the new link.
    pub fn append(&mut self, op_id: u64, proof_hash: hash::Hash) -> (link: hash::Hash)
        requires
            old(self).wf(),
        ensures
            final(self).wf(),
            final(self).history() == old(self).history().push(proof_hash),
            final(self).spec_capacity() == old(self).spec_capacity(),
            link == spec_combine(old(self).spec_last_link(), proof_hash),
            final(self).spec_last_link() == link,
            ({
                let entry = ChainEntry { op_id, proof_hash, link_hash: link };
                let grown = old(self).tail().push(entry);
                final(self).tail() == if grown.len() > old(self).spec_capacity() {
                    grown.skip(1)
                } else {
                    grown
                }
            }),
    {
        let ghost before = *self;
        let link = hash::combine(&self.last_link, &proof_hash);
        let entry = ChainEntry { op_id, proof_hash, link_hash: link };
        self.entries.push_back(entry);
        self.last_link = link;
        self.history = Ghost(self.history@.push(proof_hash));
        proof {
            let k = before.evicted();
            assert(self.history().take(k) =~= before.history().take(k));
            assert(proof_hashes(self.tail()) =~= self.history().skip(k)) by {
                assert(proof_hashes(before.tail()) == before.history().skip(k));
                assert forall|i: int| 0 <= i < self.tail().len() implies proof_hashes(self.tail())[i]
                    == self.history().skip(k)[i] by {
                    if i < before.tail().len() {
                        assert(proof_hashes(before.tail())[i] == before.history().skip(k)[i]);
                    }
                }
            }
            assert forall|i: int| 0 <= i < self.tail().len() implies #[trigger] link_holds(
                self.spec_anchor(),
                self.tail(),
                i,
            ) by {
                if i < before.tail().len() {
                    assert(link_holds(before.spec_anchor(), before.tail(), i));
                }
            }
        }
        if self.entries.len() > self.capacity {
            let ghost grown = *self;
            let oldest = self.entries.pop_front();
            match oldest {
                Some(e) => {
                    self.anchor = e.link_hash;
                },
                None => {},
            }
            proof {
                let k = grown.evicted();
                assert(link_holds(grown.spec_anchor(), grown.tail(), 0));
                assert(proof_hashes(grown.tail())[0] == grown.history().skip(k)[0]);
                assert(self.history().take(k + 1) =~= self.history().take(k).push(self.history()[k]));
                lemma_chain_link_push(
                    hash::Hash::spec_zero(),
                    self.history().take(k),
                    self.history()[k],
                );
                assert(proof_hashes(self.tail()) =~= self.history().skip(k + 1)) by {
                    assert forall|i: int| 0 <= i < self.tail().len() implies proof_hashes(
                        self.tail(),
                    )[i] == self.history().skip(k + 1)[i] by {
                        assert(proof_hashes(grown.tail())[i + 1] == grown.history().skip(k)[i + 1]);
                    }
                }
                assert forall|i: int| 0 <= i < self.tail().len() implies #[trigger] link_holds(
                    self.spec_anchor(),
                    self.tail(),
                    i,
                ) by {
                    assert(link_holds(grown.spec_anchor(), grown.tail(), i + 1));
                }
            }
        }
        link
    }

    /// The newest link: the one reached from the zero hash by every proof
    /// hash ever appended.
    pub fn last_link(&self) -> (link: hash::Hash)
        ensures
            link == self.spec_last_link(),
            self.wf() ==> link == chain_link(hash::Hash::spec_zero(), self.history()),
    {
        proof {
            if self.wf() {
                self.law_replay_reaches_last_link();
            }
        }
        self.last_link
    }

    /// The link just before the oldest entry kept.
    pub fn anchor(&self) -> (link: hash::Hash)
        ensures
            link == self.spec_anchor(),
    {
        self.anchor
    }

    /// Number of entries that the chain keeps in memory at most.
    pub fn capacity(&self) -> (n: usize)
        ensures
            n == self.spec_capacity(),
    {
        self.capacity
    }

    /// Number of entries kept in memory.
    pub fn len(&self) -> (n: usize)
        ensures
            n == self.tail().len(),
    {
        self.entries.len()
    }

    /// Entry `i` of the tail, oldest first.
    pub fn entry(&self, i: usize) -> (e: Option<ChainEntry>)
        ensures
            e == if i < self.tail().len() {
                Some(self.tail()[i as int])
            } else {
                None
            },
    {
        if i < self.entries.len() {
            Some(self.entries[i])
        } else {
            None
        }
    }

    /// The entries kept in memory, oldest first.
    pub fn entries(&self) -> (out: Vec<ChainEntry>)
        ensures
            out@ == self.tail(),
    {
        let n = self.entries.len();
        let mut out: Vec<ChainEntry> = Vec::new();
        let mut i: usize = 0;
        while i < n
            invariant
                i <= n,
                n == self.entries@.len(),
                out@ == self.entries@.take(i as int),
            decreases n - i,
        {
            out.push(self.entries[i]);
            assert(out@ =~= self.entries@.take(i + 1));
            i += 1;
        }
        assert(self.entries@.take(n as int) =~= self.entries@);
        out
    }

    /// Replays the entries `start..end` of the tail from the link before
    /// entry `start` and checks every link. A range that the tail does not
    /// hold is not found. This is how corruption of the tail shows; a chain
    /// that kept its invariant always passes.
    pub fn verify(&self, start: usize, end: usize) -> (result: Result<(), VerificationError>)
        ensures
            !(start <= end <= self.tail().len()) ==> result == Err::<(), VerificationError>(
                VerificationError::NotFound,
            ),
            start <= end <= self.tail().len() ==> {
                let anchor = link_before(self.spec_anchor(), self.tail(), start as int);
                let range = self.tail().subrange(start as int, end as int);
                &&& result is Ok <==> entries_linked(anchor, range)
                &&& result matches Err(e) ==> exists|i: int|
                    #[trigger] is_first_break(anchor, range, i) && e == (
                    VerificationError::ChainBroken { at_op_id: range[i].op_id })
                &&& self.wf() ==> result is Ok
            },
    {
        let n = self.entries.len();
        if start > end || end > n {
            return Err(VerificationError::NotFound);
        }
        let anchor = if start == 0 {
            self.anchor
        } else {
            self.entries[start - 1].link_hash
        };
        let mut range: Vec<ChainEntry> = Vec::new();
        let mut i: usize = start;
        while i < end
            invariant
                start <= i <= end,
                end <= self.entries@.len(),
                range@ == self.entries@.subrange(start as int, i as int),
            decreases end - i,
        {
            range.push(self.entries[i]);
            assert(range@ =~= self.entries@.subrange(start as int, i + 1));
            i += 1;
        }
        proof {
            if self.wf() {
                assert forall|j: int| 0 <= j < range@.len() implies #[trigger] link_holds(
                    anchor,
                    range@,
                    j,
                ) by {
                    assert(link_holds(self.spec_anchor(), self.tail(), start + j));
                }
            }
        }
        verify_entries(anchor, range.as_slice())
    }

    /// Replaying the whole history from the zero hash reaches the newest
    /// link of the chain.
    pub proof fn law_replay_reaches_last_link(self)
        requires
            self.wf(),
        ensures
            chain_link(hash::Hash::spec_zero(), self.history()) == self.spec_last_link(),
    {
        let k = self.evicted();
        lemma_linked_entries_reach(self.spec_anchor(), self.tail());
        lemma_chain_link_concat(
            hash::Hash::spec_zero(),
            self.history().take(k),
            self.history().skip(k),
        );
        assert(self.history().take(k) + self.history().skip(k) =~= self.history());
    }
}

/// Appending `first` and then `second` is appending both at once.
pub proof fn lemma_chain_link_concat(seed: hash::Hash, first: Seq<hash::Hash>, second: Seq<hash::Hash>)
    ensures
        chain_link(seed, first + second) == chain_link(chain_link(seed, first), second),
    decreases second.len(),
{
    if second.len() == 0 {
        assert(first + second =~= first);
    } else {
        lemma_chain_link_concat(seed, first, second.drop_last());
        assert((first + second).drop_last() =~= first + second.drop_last());
    }
}

} // verus!
