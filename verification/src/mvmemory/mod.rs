//! Multi-version memory: the keyed store of speculative writes and deltas,
//! the read descriptors captured during an execution, and the per-execution
//! view that records them.

use vstd::prelude::*;

use crate::ledger::Ledger;
use crate::traits::{output_keys, spec_apply_delta, DeltaOp, Mergeable, TransactionOutput,
    ValueBytes};
use crate::types::{TxnIndex, Version};

use self::mvmap::{spec_fold_deltas, spec_read, MVMap, MVMapError, MVMapOutput, SpecReadResult};

pub mod mvmap;

verus! {

/// The exact observation made at one location during an execution; equality
/// against a later re-read is how validation detects a serializability
/// violation.
#[derive(Debug)]
pub enum ReadType {
    /// The read observed the write of this version.
    Version(Version),
    /// The read observed nothing in the map and fell back to base state.
    Storage,
    /// The read observed a write with deltas folded on top.
    Merged(usize),
    /// The read observed deltas folded into one, with no write beneath.
    PartialMerged(DeltaOp),
    /// The read observed a list of deltas in block order, with no write
    /// beneath.
    Unmerged(Vec<DeltaOp>),
}

/// One captured read: the location and what was observed there.
#[derive(Debug)]
pub struct ReadDescriptor {
    /// The location read.
    pub key: usize,
    /// What the read observed.
    pub read_type: ReadType,
}

/// Whether a descriptor still matches what a re-read observes now.
pub open spec fn spec_validate_read(d: ReadDescriptor, r: SpecReadResult) -> bool {
    match d.read_type {
        ReadType::Version(v) => r matches SpecReadResult::Version(i, inc, _val) && v == (i, inc),
        ReadType::Storage => r is NotFound,
        ReadType::Merged(m) => r matches SpecReadResult::Merged(m2) && m == m2,
        ReadType::PartialMerged(pd) => r matches SpecReadResult::PartialMerged(d2) && pd == d2,
        ReadType::Unmerged(ds) => r matches SpecReadResult::Unmerged(ds2) && ds@ == ds2,
    }
}

impl ReadDescriptor {
    /// A descriptor for a read that observed a versioned write.
    pub fn new_version(key: usize, version: Version) -> (r: ReadDescriptor)
        ensures
            r == (ReadDescriptor { key, read_type: ReadType::Version(version) }),
    {
        ReadDescriptor { key, read_type: ReadType::Version(version) }
    }

    /// A descriptor for a read that fell back to base state.
    pub fn new_storage(key: usize) -> (r: ReadDescriptor)
        ensures
            r == (ReadDescriptor { key, read_type: ReadType::Storage }),
    {
        ReadDescriptor { key, read_type: ReadType::Storage }
    }

    /// A descriptor for a read that observed a merged value.
    pub fn new_merged(key: usize, value: usize) -> (r: ReadDescriptor)
        ensures
            r == (ReadDescriptor { key, read_type: ReadType::Merged(value) }),
    {
        ReadDescriptor { key, read_type: ReadType::Merged(value) }
    }

    /// A descriptor for a read that observed a single folded delta.
    pub fn new_partial_merged(key: usize, delta: DeltaOp) -> (r: ReadDescriptor)
        ensures
            r == (ReadDescriptor { key, read_type: ReadType::PartialMerged(delta) }),
    {
        ReadDescriptor { key, read_type: ReadType::PartialMerged(delta) }
    }

    /// A descriptor for a read that observed an unmerged delta list.
    pub fn new_unmerged(key: usize, deltas: Vec<DeltaOp>) -> (r: ReadDescriptor)
        ensures
            r == (ReadDescriptor { key, read_type: ReadType::Unmerged(deltas) }),
    {
        ReadDescriptor { key, read_type: ReadType::Unmerged(deltas) }
    }

    /// The location this descriptor was captured at.
    pub fn key(&self) -> (r: usize)
        ensures
            r == self.key,
    {
        self.key
    }

    /// Whether the descriptor recorded exactly this version.
    pub fn validate_version(&self, version: Version) -> (r: bool)
        ensures
            r == (self.read_type == ReadType::Version(version)),
    {
        match &self.read_type {
            ReadType::Version(v) => v.0 == version.0 && v.1 == version.1,
            _ => false,
        }
    }

    /// Whether the descriptor recorded a fall-back to base state.
    pub fn validate_storage(&self) -> (r: bool)
        ensures
            r == (self.read_type == ReadType::Storage),
    {
        match &self.read_type {
            ReadType::Storage => true,
            _ => false,
        }
    }

    /// Whether the descriptor recorded exactly this merged value.
    pub fn validate_merged(&self, value: usize) -> (r: bool)
        ensures
            r == (self.read_type == ReadType::Merged(value)),
    {
        match &self.read_type {
            ReadType::Merged(m) => *m == value,
            _ => false,
        }
    }

    /// Whether the descriptor recorded exactly this folded delta.
    pub fn validate_partial_merged(&self, delta: DeltaOp) -> (r: bool)
        ensures
            r == (self.read_type == ReadType::PartialMerged(delta)),
    {
        match &self.read_type {
            ReadType::PartialMerged(d) => d.amount == delta.amount,
            _ => false,
        }
    }

    /// Whether the descriptor recorded exactly this delta list.
    pub fn validate_unmerged(&self, deltas: &Vec<DeltaOp>) -> (r: bool)
        ensures
            r == (self.read_type matches ReadType::Unmerged(ds) && ds@ == deltas@),
    {
        match &self.read_type {
            ReadType::Unmerged(ds) => {
                if ds.len() != deltas.len() {
                    return false;
                }
                let n = ds.len();
                let mut i: usize = 0;
                while i < n
                    invariant
                        self.read_type matches ReadType::Unmerged(ds2) && ds2@ == ds@,
                        n == ds@.len() == deltas@.len(),
                        i <= n,
                        forall|j: int| 0 <= j < i ==> ds@[j] == deltas@[j],
                    decreases n - i,
                {
                    if ds[i].amount != deltas[i].amount {
                        return false;
                    }
                    i += 1;
                }
                proof {
                    assert(ds@ =~= deltas@);
                }
                true
            },
            _ => false,
        }
    }
}

/// What a view read hands back to the transaction being executed.
pub enum ReadResult {
    /// A plain versioned value.
    Value(usize),
    /// A write with deltas folded on top.
    Merged(usize),
    /// Deltas folded into one; the caller owes the fold onto base state.
    PartialMerged(DeltaOp),
    /// Deltas in block order; the caller owes the fold onto base state.
    Unmerged(Vec<DeltaOp>),
    /// Nothing below the reader; the caller falls back to base state.
    NotFound,
}

/// Whether one of the first `p` pairs of the sequence carries the key.
pub open spec fn key_in<X>(s: Seq<(usize, X)>, p: int, k: usize) -> bool {
    exists|j: int| 0 <= j < p && (#[trigger] s[j]).0 == k
}

/// Multi-version memory for one block: the multi-version map plus the block
/// bound its entries stay under.
pub struct MVMemory {
    block_size: usize,
    data: MVMap,
}

/// A dependency index a read reports is always below the reader.
pub proof fn lemma_spec_read_bounds(s: Seq<(TxnIndex, mvmap::Entry)>, t: TxnIndex, mergeable: bool)
    ensures
        spec_read(s, t, mergeable) matches SpecReadResult::Dependency(b) ==> b < t,
        spec_read(s, t, mergeable) matches SpecReadResult::Version(i, _inc, _v) ==> i < t,
{
    lemma_spec_read_merge_bounds(s, t, None);
    lemma_spec_read_list_bounds(s, t, Seq::empty());
}

proof fn lemma_spec_read_merge_bounds(s: Seq<(TxnIndex, mvmap::Entry)>, t: TxnIndex, acc: Option<
    DeltaOp,
>)
    ensures
        mvmap::spec_read_merge(s, t, acc) matches SpecReadResult::Dependency(b) ==> b < t,
        mvmap::spec_read_merge(s, t, acc) matches SpecReadResult::Version(i, _inc, _v) ==> i < t,
    decreases s.len(),
{
    if s.len() > 0 {
        if s.last().0 >= t {
            lemma_spec_read_merge_bounds(s.drop_last(), t, acc);
        } else if !s.last().1.estimate {
            match (s.last().1.cell, acc) {
                (mvmap::EntryCell::Delta(d), None) => {
                    lemma_spec_read_merge_bounds(s.drop_last(), t, Some(d));
                },
                (mvmap::EntryCell::Delta(d), Some(acc_d)) => {
                    lemma_spec_read_merge_bounds(
                        s.drop_last(),
                        t,
                        Some(crate::traits::spec_merge_deltas(d, acc_d)),
                    );
                },
                _ => {},
            }
        }
    }
}

proof fn lemma_spec_read_list_bounds(s: Seq<(TxnIndex, mvmap::Entry)>, t: TxnIndex, acc: Seq<
    DeltaOp,
>)
    ensures
        mvmap::spec_read_list(s, t, acc) matches SpecReadResult::Dependency(b) ==> b < t,
        mvmap::spec_read_list(s, t, acc) matches SpecReadResult::Version(i, _inc, _v) ==> i < t,
    decreases s.len(),
{
    if s.len() > 0 {
        if s.last().0 >= t {
            lemma_spec_read_list_bounds(s.drop_last(), t, acc);
        } else if !s.last().1.estimate {
            match s.last().1.cell {
                mvmap::EntryCell::Delta(d) => {
                    lemma_spec_read_list_bounds(s.drop_last(), t, acc.push(d));
                },
                _ => {},
            }
        }
    }
}

impl MVMemory {
    /// Internal shape: a well-formed map whose entries all lie below the
    /// block bound.
    pub closed spec fn wf(&self) -> bool {
        &&& self.data.wf()
        &&& forall|k: usize, t: TxnIndex|
            #[trigger] self.entry_at(k, t) is Some ==> t < self.spec_block_size()
    }

    /// The block bound.
    pub closed spec fn spec_block_size(&self) -> usize {
        self.block_size
    }

    /// Whether reads fold deltas into a single one.
    pub closed spec fn spec_mergeable(&self) -> bool {
        self.data.spec_mergeable()
    }

    /// The entries held for a key.
    pub closed spec fn entries(&self, k: usize) -> Seq<(TxnIndex, mvmap::Entry)> {
        self.data.entries(k)
    }

    /// The entry held at `(k, t)`, if any.
    pub open spec fn entry_at(&self, k: usize, t: TxnIndex) -> Option<mvmap::Entry> {
        mvmap::entry_of(self.entries(k), t)
    }

    /// The entries of a key are sorted by strictly increasing index.
    pub proof fn lemma_entries_sorted(&self, k: usize)
        requires
            self.wf(),
        ensures
            forall|i: int, j: int|
                0 <= i < j < self.entries(k).len() ==> (#[trigger] self.entries(k)[i]).0 < (
                #[trigger] self.entries(k)[j]).0,
    {
        self.data.lemma_entries_sorted(k);
    }

    /// The entries of a key are exactly the slots `entry_at` answers for.
    pub proof fn lemma_entries_characterization(&self, k: usize)
        requires
            self.wf(),
        ensures
            forall|p: int|
                0 <= p < self.entries(k).len() ==> self.entry_at(
                    k,
                    (#[trigger] self.entries(k)[p]).0,
                ) == Some(self.entries(k)[p].1),
            forall|t: TxnIndex|
                #[trigger] self.entry_at(k, t) is Some ==> exists|p: int|
                    0 <= p < self.entries(k).len() && (#[trigger] self.entries(k)[p]).0 == t,
    {
        self.data.lemma_entries_characterization(k);
        assert forall|t: TxnIndex| #[trigger] self.entry_at(k, t) is Some implies exists|p: int|
            0 <= p < self.entries(k).len() && (#[trigger] self.entries(k)[p]).0 == t by {
            assert(self.data.entry_at(k, t) is Some);
            let p = choose|p: int|
                0 <= p < self.data.entries(k).len() && (#[trigger] self.data.entries(k)[p]).0
                    == t;
            assert(0 <= p < self.entries(k).len() && self.entries(k)[p].0 == t);
        }
    }

    /// Empty memory for a block of `block_size` transactions.
    pub fn new(block_size: usize) -> (r: MVMemory)
        ensures
            r.wf(),
            r.spec_block_size() == block_size,
            r.spec_mergeable() == <usize as Mergeable>::spec_partial_mergeable(),
            forall|k: usize| r.entries(k) == Seq::<(TxnIndex, mvmap::Entry)>::empty(),
    {
        let mergeable = usize::partial_mergeable();
        let r = MVMemory { block_size, data: MVMap::new(mergeable) };
        proof {
            assert forall|k: usize, t: TxnIndex| #[trigger] r.entry_at(k, t) is Some implies t
                < r.spec_block_size() by {
                assert(r.entries(k).len() == 0);
                crate::kvmap::lemma_map_of_dom(r.entries(k), t);
            }
        }
        r
    }

    /// The versioned read at `k` below `txn_idx`.
    pub fn read(&self, k: &usize, txn_idx: TxnIndex) -> (r: Result<MVMapOutput, MVMapError>)
        requires
            self.wf(),
        ensures
            mvmap::read_result_view(r) == spec_read(
                self.entries(*k),
                txn_idx,
                self.spec_mergeable(),
            ),
    {
        self.data.read(k, txn_idx)
    }

    /// Record the write set of one incarnation.
    fn apply_writes(&mut self, version: Version, write_set: &Vec<(usize, usize)>)
        requires
            old(self).wf(),
            version.0 < old(self).spec_block_size(),
            forall|p: int, q: int|
                0 <= p < q < write_set@.len() ==> (#[trigger] write_set@[p]).0 != (
                #[trigger] write_set@[q]).0,
        ensures
            final(self).wf(),
            final(self).spec_block_size() == old(self).spec_block_size(),
            final(self).spec_mergeable() == old(self).spec_mergeable(),
            forall|j: int|
                0 <= j < write_set@.len() ==> final(self).entry_at(
                    (#[trigger] write_set@[j]).0,
                    version.0,
                ) == Some(
                    mvmap::Entry {
                        estimate: false,
                        cell: mvmap::EntryCell::Write(version.1, write_set@[j].1),
                    },
                ),
            forall|k: usize|
                !key_in(write_set@, write_set@.len() as int, k) ==> #[trigger] final(self).entry_at(k, version.0) == old(self).entry_at(k, version.0),
            forall|k: usize, u: TxnIndex|
                u != version.0 ==> #[trigger] final(self).entry_at(k, u) == old(self).entry_at(
                    k,
                    u,
                ),
    {
        let n = write_set.len();
        let mut p: usize = 0;
        while p < n
            invariant
                self.wf(),
                n == write_set@.len(),
                p <= n,
                version.0 < self.spec_block_size(),
                self.spec_block_size() == old(self).spec_block_size(),
                self.spec_mergeable() == old(self).spec_mergeable(),
                forall|a: int, b: int|
                    0 <= a < b < n ==> (#[trigger] write_set@[a]).0 != (#[trigger] write_set@[b]).0,
                forall|j: int|
                    0 <= j < p ==> self.entry_at((#[trigger] write_set@[j]).0, version.0) == Some(
                        mvmap::Entry {
                            estimate: false,
                            cell: mvmap::EntryCell::Write(version.1, write_set@[j].1),
                        },
                    ),
                forall|k: usize|
                    !key_in(write_set@, p as int, k) ==> #[trigger] self.entry_at(k, version.0)
                        == old(self).entry_at(k, version.0),
                forall|k: usize, u: TxnIndex|
                    u != version.0 ==> #[trigger] self.entry_at(k, u) == old(self).entry_at(k, u),
            decreases n - p,
        {
            let (k, v) = write_set[p];
            let ghost prev = *self;
            self.data.write(k, v, version);
            proof {
                assert(!key_in(write_set@, p as int, k));
                assert forall|j: int|
                    0 <= j < p + 1 implies self.entry_at(
                    (#[trigger] write_set@[j]).0,
                    version.0,
                ) == Some(
                    mvmap::Entry {
                        estimate: false,
                        cell: mvmap::EntryCell::Write(version.1, write_set@[j].1),
                    },
                ) by {
                    if j < p {
                        assert(write_set@[j].0 != k);
                        assert(self.entries(write_set@[j].0) == prev.entries(write_set@[j].0));
                    }
                }
                assert forall|k2: usize| !key_in(write_set@, p + 1, k2) implies #[trigger] self
                    .entry_at(k2, version.0) == old(self).entry_at(k2, version.0) by {
                    assert(k2 != k);
                    assert(!key_in(write_set@, p as int, k2));
                    assert(self.entries(k2) == prev.entries(k2));
                    assert(prev.entry_at(k2, version.0) == old(self).entry_at(k2, version.0));
                }
                assert forall|k2: usize, u: TxnIndex| u != version.0 implies #[trigger] self
                    .entry_at(k2, u) == old(self).entry_at(k2, u) by {
                    if k2 != k {
                        assert(self.entries(k2) == prev.entries(k2));
                    } else {
                        assert(self.data.entry_at(k2, u) == prev.data.entry_at(k2, u));
                    }
                    assert(prev.entry_at(k2, u) == old(self).entry_at(k2, u));
                }
                assert forall|k2: usize, t: TxnIndex| #[trigger] self.entry_at(k2, t)
                    is Some implies t < self.spec_block_size() by {
                    if k2 == k && t == version.0 {
                    } else if k2 == k {
                        assert(self.data.entry_at(k2, t) == prev.data.entry_at(k2, t));
                        assert(prev.entry_at(k2, t) is Some ==> t < prev.spec_block_size());
                    } else {
                        assert(self.entries(k2) == prev.entries(k2));
                        assert(prev.entry_at(k2, t) is Some ==> t < prev.spec_block_size());
                    }
                }
            }
            p += 1;
        }
    }

    /// Record the delta set of one incarnation.
    fn apply_deltas(&mut self, version: Version, delta_set: &Vec<(usize, DeltaOp)>)
        requires
            old(self).wf(),
            version.0 < old(self).spec_block_size(),
            forall|p: int, q: int|
                0 <= p < q < delta_set@.len() ==> (#[trigger] delta_set@[p]).0 != (
                #[trigger] delta_set@[q]).0,
        ensures
            final(self).wf(),
            final(self).spec_block_size() == old(self).spec_block_size(),
            final(self).spec_mergeable() == old(self).spec_mergeable(),
            forall|j: int|
                0 <= j < delta_set@.len() ==> final(self).entry_at(
                    (#[trigger] delta_set@[j]).0,
                    version.0,
                ) == Some(
                    mvmap::Entry {
                        estimate: false,
                        cell: mvmap::EntryCell::Delta(delta_set@[j].1),
                    },
                ),
            forall|k: usize|
                !key_in(delta_set@, delta_set@.len() as int, k) ==> #[trigger] final(self).entry_at(k, version.0) == old(self).entry_at(k, version.0),
            forall|k: usize, u: TxnIndex|
                u != version.0 ==> #[trigger] final(self).entry_at(k, u) == old(self).entry_at(
                    k,
                    u,
                ),
    {
        let n = delta_set.len();
        let mut p: usize = 0;
        while p < n
            invariant
                self.wf(),
                n == delta_set@.len(),
                p <= n,
                version.0 < self.spec_block_size(),
                self.spec_block_size() == old(self).spec_block_size(),
                self.spec_mergeable() == old(self).spec_mergeable(),
                forall|a: int, b: int|
                    0 <= a < b < n ==> (#[trigger] delta_set@[a]).0 != (#[trigger] delta_set@[b]).0,
                forall|j: int|
                    0 <= j < p ==> self.entry_at((#[trigger] delta_set@[j]).0, version.0) == Some(
                        mvmap::Entry {
                            estimate: false,
                            cell: mvmap::EntryCell::Delta(delta_set@[j].1),
                        },
                    ),
                forall|k: usize|
                    !key_in(delta_set@, p as int, k) ==> #[trigger] self.entry_at(k, version.0)
                        == old(self).entry_at(k, version.0),
                forall|k: usize, u: TxnIndex|
                    u != version.0 ==> #[trigger] self.entry_at(k, u) == old(self).entry_at(k, u),
            decreases n - p,
        {
            let (k, d) = delta_set[p];
            let ghost prev = *self;
            self.data.delta(k, d, version);
            proof {
                assert(!key_in(delta_set@, p as int, k));
                assert forall|j: int|
                    0 <= j < p + 1 implies self.entry_at(
                    (#[trigger] delta_set@[j]).0,
                    version.0,
                ) == Some(
                    mvmap::Entry {
                        estimate: false,
                        cell: mvmap::EntryCell::Delta(delta_set@[j].1),
                    },
                ) by {
                    if j < p {
                        assert(delta_set@[j].0 != k);
                        assert(self.entries(delta_set@[j].0) == prev.entries(delta_set@[j].0));
                    }
                }
                assert forall|k2: usize| !key_in(delta_set@, p + 1, k2) implies #[trigger] self
                    .entry_at(k2, version.0) == old(self).entry_at(k2, version.0) by {
                    assert(k2 != k);
                    assert(!key_in(delta_set@, p as int, k2));
                    assert(self.entries(k2) == prev.entries(k2));
                    assert(prev.entry_at(k2, version.0) == old(self).entry_at(k2, version.0));
                }
                assert forall|k2: usize, u: TxnIndex| u != version.0 implies #[trigger] self
                    .entry_at(k2, u) == old(self).entry_at(k2, u) by {
                    if k2 != k {
                        assert(self.entries(k2) == prev.entries(k2));
                    } else {
                        assert(self.data.entry_at(k2, u) == prev.data.entry_at(k2, u));
                    }
                    assert(prev.entry_at(k2, u) == old(self).entry_at(k2, u));
                }
                assert forall|k2: usize, t: TxnIndex| #[trigger] self.entry_at(k2, t)
                    is Some implies t < self.spec_block_size() by {
                    if k2 == k && t == version.0 {
                    } else if k2 == k {
                        assert(self.data.entry_at(k2, t) == prev.data.entry_at(k2, t));
                        assert(prev.entry_at(k2, t) is Some ==> t < prev.spec_block_size());
                    } else {
                        assert(self.entries(k2) == prev.entries(k2));
                        assert(prev.entry_at(k2, t) is Some ==> t < prev.spec_block_size());
                    }
                }
            }
            p += 1;
        }
    }

    /// Drop the entries of keys the previous incarnation wrote but this one
    /// did not.
    fn delete_stale(
        &mut self,
        txn_idx: TxnIndex,
        last_modified: &Vec<usize>,
        write_set: &Vec<(usize, usize)>,
        delta_set: &Vec<(usize, DeltaOp)>,
    )
        requires
            old(self).wf(),
            forall|p: int, q: int|
                0 <= p < q < last_modified@.len() ==> last_modified@[p] != last_modified@[q],
        ensures
            final(self).wf(),
            final(self).spec_block_size() == old(self).spec_block_size(),
            final(self).spec_mergeable() == old(self).spec_mergeable(),
            forall|j: int|
                0 <= j < last_modified@.len() && !key_in(
                    write_set@,
                    write_set@.len() as int,
                    #[trigger] last_modified@[j],
                ) && !key_in(delta_set@, delta_set@.len() as int, last_modified@[j]) ==> final(self).entry_at(last_modified@[j], txn_idx) is None,
            forall|k: usize|
                !last_modified@.contains(k) || key_in(write_set@, write_set@.len() as int, k)
                    || key_in(delta_set@, delta_set@.len() as int, k) ==> #[trigger] final(self).entry_at(k, txn_idx) == old(self).entry_at(k, txn_idx),
            forall|k: usize, u: TxnIndex|
                u != txn_idx ==> #[trigger] final(self).entry_at(k, u) == old(self).entry_at(k, u),
    {
        let n = last_modified.len();
        let mut p: usize = 0;
        while p < n
            invariant
                self.wf(),
                n == last_modified@.len(),
                p <= n,
                self.spec_block_size() == old(self).spec_block_size(),
                self.spec_mergeable() == old(self).spec_mergeable(),
                forall|a: int, b: int| 0 <= a < b < n ==> last_modified@[a] != last_modified@[b],
                forall|j: int|
                    0 <= j < p && !key_in(
                        write_set@,
                        write_set@.len() as int,
                        #[trigger] last_modified@[j],
                    ) && !key_in(delta_set@, delta_set@.len() as int, last_modified@[j])
                        ==> self.entry_at(last_modified@[j], txn_idx) is None,
                forall|k: usize|
                    !elem_in(last_modified@, p as int, k) || key_in(
                        write_set@,
                        write_set@.len() as int,
                        k,
                    ) || key_in(delta_set@, delta_set@.len() as int, k) ==> #[trigger] self
                        .entry_at(k, txn_idx) == old(self).entry_at(k, txn_idx),
                forall|k: usize, u: TxnIndex|
                    u != txn_idx ==> #[trigger] self.entry_at(k, u) == old(self).entry_at(k, u),
            decreases n - p,
        {
            let k = last_modified[p];
            let in_writes = mvmap::key_in_pairs(write_set, k);
            let in_deltas = mvmap::key_in_pairs(delta_set, k);
            proof {
                lemma_key_in_pairs_eq(write_set@, k);
                lemma_key_in_pairs_eq(delta_set@, k);
            }
            if !in_writes && !in_deltas {
                let ghost prev = *self;
                self.data.delete(&k, txn_idx);
                proof {
                    assert forall|u: TxnIndex| #[trigger] self.entry_at(k, u) is Some implies prev
                        .entry_at(k, u) is Some by {
                        if u == txn_idx {
                            assert(self.data.entry_at(k, txn_idx) is None);
                        } else {
                            assert(self.data.entry_at(k, u) == prev.data.entry_at(k, u));
                        }
                    }
                    lemma_frame_step(prev, *self, k, txn_idx);
                    assert forall|j: int|
                        0 <= j < p + 1 && !key_in(
                            write_set@,
                            write_set@.len() as int,
                            #[trigger] last_modified@[j],
                        ) && !key_in(delta_set@, delta_set@.len() as int, last_modified@[j])
                        implies self.entry_at(last_modified@[j], txn_idx) is None by {
                        if j < p {
                            assert(last_modified@[j] != k);
                            assert(self.entries(last_modified@[j]) == prev.entries(
                                last_modified@[j],
                            ));
                        }
                    }
                    assert forall|k2: usize|
                        !elem_in(last_modified@, p + 1, k2) || key_in(
                            write_set@,
                            write_set@.len() as int,
                            k2,
                        ) || key_in(delta_set@, delta_set@.len() as int, k2) implies #[trigger] self
                        .entry_at(k2, txn_idx) == old(self).entry_at(k2, txn_idx) by {
                        assert(k2 != k);
                        assert(!elem_in(last_modified@, p as int, k2) || key_in(
                            write_set@,
                            write_set@.len() as int,
                            k2,
                        ) || key_in(delta_set@, delta_set@.len() as int, k2));
                        assert(self.entries(k2) == prev.entries(k2));
                        assert(prev.entry_at(k2, txn_idx) == old(self).entry_at(k2, txn_idx));
                    }
                    assert forall|k2: usize, u: TxnIndex| u != txn_idx implies #[trigger] self
                        .entry_at(k2, u) == old(self).entry_at(k2, u) by {
                        if k2 != k {
                            assert(self.entries(k2) == prev.entries(k2));
                        } else {
                            assert(self.data.entry_at(k2, u) == prev.data.entry_at(k2, u));
                        }
                        assert(prev.entry_at(k2, u) == old(self).entry_at(k2, u));
                    }
                }
            } else {
                proof {
                    assert forall|k2: usize|
                        !elem_in(last_modified@, p + 1, k2) || key_in(
                            write_set@,
                            write_set@.len() as int,
                            k2,
                        ) || key_in(delta_set@, delta_set@.len() as int, k2) implies #[trigger] self
                        .entry_at(k2, txn_idx) == old(self).entry_at(k2, txn_idx) by {
                        if k2 == k {
                        } else {
                            assert(!elem_in(last_modified@, p as int, k2) || key_in(
                                write_set@,
                                write_set@.len() as int,
                                k2,
                            ) || key_in(delta_set@, delta_set@.len() as int, k2));
                        }
                    }
                }
            }
            p += 1;
        }
    }

    /// Record the full output of one incarnation: its writes and deltas
    /// replace this transaction's slots, and slots the previous incarnation
    /// filled but this one did not are dropped. Returns whether this
    /// incarnation touched a key that no prior incarnation of this
    /// transaction touched, the signal to re-validate later transactions.
    pub fn apply(
        &mut self,
        version: Version,
        last_modified: &Vec<usize>,
        write_set: &Vec<(usize, usize)>,
        delta_set: &Vec<(usize, DeltaOp)>,
    ) -> (wrote_new: bool)
        requires
            old(self).wf(),
            version.0 < old(self).spec_block_size(),
            forall|p: int, q: int|
                0 <= p < q < write_set@.len() ==> (#[trigger] write_set@[p]).0 != (
                #[trigger] write_set@[q]).0,
            forall|p: int, q: int|
                0 <= p < q < delta_set@.len() ==> (#[trigger] delta_set@[p]).0 != (
                #[trigger] delta_set@[q]).0,
            forall|p: int, q: int|
                0 <= p < write_set@.len() && 0 <= q < delta_set@.len() ==> (
                #[trigger] write_set@[p]).0 != (#[trigger] delta_set@[q]).0,
            forall|p: int, q: int|
                0 <= p < q < last_modified@.len() ==> last_modified@[p] != last_modified@[q],
            forall|k: usize|
                #![trigger old(self).entry_at(k, version.0)]
                (match old(self).entry_at(k, version.0) {
                    Some(e) => match e.cell {
                        mvmap::EntryCell::Write(inc, _v) => inc < version.1,
                        mvmap::EntryCell::Delta(_d) => true,
                    },
                    None => true,
                }),
        ensures
            final(self).wf(),
            final(self).spec_block_size() == old(self).spec_block_size(),
            final(self).spec_mergeable() == old(self).spec_mergeable(),
            forall|j: int|
                0 <= j < write_set@.len() ==> final(self).entry_at(
                    (#[trigger] write_set@[j]).0,
                    version.0,
                ) == Some(
                    mvmap::Entry {
                        estimate: false,
                        cell: mvmap::EntryCell::Write(version.1, write_set@[j].1),
                    },
                ),
            forall|j: int|
                0 <= j < write_set@.len() ==> match #[trigger] old(self).entry_at(
                    write_set@[j].0,
                    version.0,
                ) {
                    Some(e) => match e.cell {
                        mvmap::EntryCell::Write(inc_old, _v) => inc_old < version.1,
                        mvmap::EntryCell::Delta(_d) => true,
                    },
                    None => true,
                },
            forall|j: int|
                0 <= j < delta_set@.len() ==> final(self).entry_at(
                    (#[trigger] delta_set@[j]).0,
                    version.0,
                ) == Some(
                    mvmap::Entry {
                        estimate: false,
                        cell: mvmap::EntryCell::Delta(delta_set@[j].1),
                    },
                ),
            forall|k: usize|
                !key_in(write_set@, write_set@.len() as int, k) && !key_in(
                    delta_set@,
                    delta_set@.len() as int,
                    k,
                ) ==> #[trigger] final(self).entry_at(k, version.0) == (
                if last_modified@.contains(k) {
                    Option::<mvmap::Entry>::None
                } else {
                    old(self).entry_at(k, version.0)
                }),
            forall|k: usize, u: TxnIndex|
                u != version.0 ==> #[trigger] final(self).entry_at(k, u) == old(self).entry_at(
                    k,
                    u,
                ),
            wrote_new == (exists|j: int|
                0 <= j < write_set@.len() && !last_modified@.contains(
                    (#[trigger] write_set@[j]).0,
                )) || (exists|j: int|
                0 <= j < delta_set@.len() && !last_modified@.contains(
                    (#[trigger] delta_set@[j]).0,
                )),
    {
        let ghost at_start = *self;
        let mut wrote_new = false;
        let wn = write_set.len();
        let mut p: usize = 0;
        while p < wn
            invariant
                wn == write_set@.len(),
                p <= wn,
                wrote_new == exists|j: int|
                    0 <= j < p && !last_modified@.contains((#[trigger] write_set@[j]).0),
            decreases wn - p,
        {
            if !mvmap::vec_contains(last_modified, write_set[p].0) {
                wrote_new = true;
            }
            p += 1;
        }
        let dn = delta_set.len();
        let mut q: usize = 0;
        while q < dn
            invariant
                dn == delta_set@.len(),
                q <= dn,
                wrote_new == (exists|j: int|
                    0 <= j < write_set@.len() && !last_modified@.contains(
                        (#[trigger] write_set@[j]).0,
                    )) || (exists|j: int|
                    0 <= j < q && !last_modified@.contains((#[trigger] delta_set@[j]).0)),
            decreases dn - q,
        {
            if !mvmap::vec_contains(last_modified, delta_set[q].0) {
                wrote_new = true;
            }
            q += 1;
        }
        self.apply_writes(version, write_set);
        let ghost after_writes = *self;
        self.apply_deltas(version, delta_set);
        let ghost after_deltas = *self;
        self.delete_stale(version.0, last_modified, write_set, delta_set);
        proof {
            assert forall|j: int|
                0 <= j < write_set@.len() implies self.entry_at(
                (#[trigger] write_set@[j]).0,
                version.0,
            ) == Some(
                mvmap::Entry {
                    estimate: false,
                    cell: mvmap::EntryCell::Write(version.1, write_set@[j].1),
                },
            ) by {
                let k = write_set@[j].0;
                assert(key_in(write_set@, write_set@.len() as int, k));
                assert(after_deltas.entry_at(k, version.0) == after_writes.entry_at(k, version.0));
                assert(self.entry_at(k, version.0) == after_deltas.entry_at(k, version.0));
            }
            assert forall|j: int|
                0 <= j < delta_set@.len() implies self.entry_at(
                (#[trigger] delta_set@[j]).0,
                version.0,
            ) == Some(
                mvmap::Entry {
                    estimate: false,
                    cell: mvmap::EntryCell::Delta(delta_set@[j].1),
                },
            ) by {
                let k = delta_set@[j].0;
                assert(key_in(delta_set@, delta_set@.len() as int, k));
                assert(self.entry_at(k, version.0) == after_deltas.entry_at(k, version.0));
            }
            assert forall|k: usize|
                !key_in(write_set@, write_set@.len() as int, k) && !key_in(
                    delta_set@,
                    delta_set@.len() as int,
                    k,
                ) implies #[trigger] self.entry_at(k, version.0) == (
            if last_modified@.contains(k) {
                Option::<mvmap::Entry>::None
            } else {
                at_start.entry_at(k, version.0)
            }) by {
                assert(after_writes.entry_at(k, version.0) == at_start.entry_at(k, version.0));
                assert(after_deltas.entry_at(k, version.0) == after_writes.entry_at(k, version.0));
                if last_modified@.contains(k) {
                    let j = choose|j: int|
                        0 <= j < last_modified@.len() && last_modified@[j] == k;
                    assert(self.entry_at(last_modified@[j], version.0) is None);
                } else {
                    assert(!elem_in(last_modified@, last_modified@.len() as int, k));
                    assert(self.entry_at(k, version.0) == after_deltas.entry_at(k, version.0));
                }
            }
            assert forall|k: usize, u: TxnIndex| u != version.0 implies #[trigger] self.entry_at(
                k,
                u,
            ) == at_start.entry_at(k, u) by {
                assert(after_writes.entry_at(k, u) == at_start.entry_at(k, u));
                assert(after_deltas.entry_at(k, u) == after_writes.entry_at(k, u));
                assert(self.entry_at(k, u) == after_deltas.entry_at(k, u));
            }
        }
        wrote_new
    }

    /// Flag every key this transaction last wrote as an estimate, so that
    /// readers suspend instead of consuming values about to change.
    pub fn convert_writes_to_estimates(&mut self, txn_idx: TxnIndex, write_set: &Vec<usize>)
        requires
            old(self).wf(),
            forall|p: int, q: int|
                0 <= p < q < write_set@.len() ==> write_set@[p] != write_set@[q],
        ensures
            final(self).wf(),
            final(self).spec_block_size() == old(self).spec_block_size(),
            final(self).spec_mergeable() == old(self).spec_mergeable(),
            forall|j: int|
                0 <= j < write_set@.len() ==> final(self).entry_at(
                    #[trigger] write_set@[j],
                    txn_idx,
                ) == (match old(self).entry_at(write_set@[j], txn_idx) {
                    Some(e) => Some(mvmap::Entry { estimate: true, cell: e.cell }),
                    None => None,
                }),
            forall|k: usize|
                !write_set@.contains(k) ==> #[trigger] final(self).entry_at(k, txn_idx) == old(
                    self,
                ).entry_at(k, txn_idx),
            forall|k: usize, u: TxnIndex|
                u != txn_idx ==> #[trigger] final(self).entry_at(k, u) == old(self).entry_at(k, u),
    {
        let n = write_set.len();
        let mut p: usize = 0;
        while p < n
            invariant
                self.wf(),
                n == write_set@.len(),
                p <= n,
                self.spec_block_size() == old(self).spec_block_size(),
                self.spec_mergeable() == old(self).spec_mergeable(),
                forall|a: int, b: int| 0 <= a < b < n ==> write_set@[a] != write_set@[b],
                forall|j: int|
                    0 <= j < p ==> self.entry_at(#[trigger] write_set@[j], txn_idx) == (
                    match old(self).entry_at(write_set@[j], txn_idx) {
                        Some(e) => Some(mvmap::Entry { estimate: true, cell: e.cell }),
                        None => None,
                    }),
                forall|k: usize|
                    !elem_in(write_set@, p as int, k) ==> #[trigger] self.entry_at(k, txn_idx)
                        == old(self).entry_at(k, txn_idx),
                forall|k: usize, u: TxnIndex|
                    u != txn_idx ==> #[trigger] self.entry_at(k, u) == old(self).entry_at(k, u),
            decreases n - p,
        {
            let k = write_set[p];
            let ghost prev = *self;
            proof {
                assert(!elem_in(write_set@, p as int, k));
                assert(self.entry_at(k, txn_idx) == old(self).entry_at(k, txn_idx));
            }
            if !self.data.contains_entry(&k, txn_idx) {
                proof {
                    assert(self.entry_at(k, txn_idx) is None);
                    assert forall|j: int|
                        0 <= j < p + 1 implies self.entry_at(#[trigger] write_set@[j], txn_idx)
                        == (match old(self).entry_at(write_set@[j], txn_idx) {
                        Some(e) => Some(mvmap::Entry { estimate: true, cell: e.cell }),
                        None => None,
                    }) by {}
                }
                p += 1;
                continue ;
            }
            self.data.mark_estimate(&k, txn_idx);
            proof {
                assert forall|u: TxnIndex| #[trigger] self.entry_at(k, u) is Some implies prev
                    .entry_at(k, u) is Some by {
                    if u == txn_idx {
                        assert(prev.data.entry_at(k, txn_idx) is Some);
                    } else {
                        assert(self.data.entry_at(k, u) == prev.data.entry_at(k, u));
                    }
                }
                lemma_frame_step(prev, *self, k, txn_idx);
                assert forall|j: int|
                    0 <= j < p + 1 implies self.entry_at(#[trigger] write_set@[j], txn_idx)
                    == (match old(self).entry_at(write_set@[j], txn_idx) {
                    Some(e) => Some(mvmap::Entry { estimate: true, cell: e.cell }),
                    None => None,
                }) by {
                    if j < p {
                        assert(write_set@[j] != k);
                        assert(self.entries(write_set@[j]) == prev.entries(write_set@[j]));
                    }
                }
                assert forall|k2: usize| !elem_in(write_set@, p + 1, k2) implies #[trigger] self
                    .entry_at(k2, txn_idx) == old(self).entry_at(k2, txn_idx) by {
                    assert(k2 != k);
                    assert(!elem_in(write_set@, p as int, k2));
                    assert(self.entries(k2) == prev.entries(k2));
                    assert(prev.entry_at(k2, txn_idx) == old(self).entry_at(k2, txn_idx));
                }
                assert forall|k2: usize, u: TxnIndex| u != txn_idx implies #[trigger] self
                    .entry_at(k2, u) == old(self).entry_at(k2, u) by {
                    if k2 != k {
                        assert(self.entries(k2) == prev.entries(k2));
                    } else {
                        assert(self.data.entry_at(k2, u) == prev.data.entry_at(k2, u));
                    }
                    assert(prev.entry_at(k2, u) == old(self).entry_at(k2, u));
                }
            }
            p += 1;
        }
    }

    /// Re-check every captured read against the map as it stands now:
    /// true exactly when each descriptor matches its re-read.
    pub fn validate_read_set(&self, txn_idx: TxnIndex, read_set: &Vec<ReadDescriptor>) -> (r: bool)
        requires
            self.wf(),
        ensures
            r == forall|j: int|
                0 <= j < read_set@.len() ==> spec_validate_read(
                    #[trigger] read_set@[j],
                    spec_read(
                        self.entries(read_set@[j].key),
                        txn_idx,
                        self.spec_mergeable(),
                    ),
                ),
    {
        let n = read_set.len();
        let mut i: usize = 0;
        while i < n
            invariant
                self.wf(),
                n == read_set@.len(),
                i <= n,
                forall|j: int|
                    0 <= j < i ==> spec_validate_read(
                        #[trigger] read_set@[j],
                        spec_read(
                            self.entries(read_set@[j].key),
                            txn_idx,
                            self.spec_mergeable(),
                        ),
                    ),
            decreases n - i,
        {
            let rd = &read_set[i];
            let ok = match self.read(&rd.key, txn_idx) {
                Ok(MVMapOutput::Version(version, _v)) => rd.validate_version(version),
                Ok(MVMapOutput::Merged(v)) => rd.validate_merged(v),
                Ok(MVMapOutput::PartialMerged(d)) => rd.validate_partial_merged(d),
                Ok(MVMapOutput::Unmerged(ds)) => rd.validate_unmerged(&ds),
                Err(MVMapError::ReadError(_)) => false,
                Err(MVMapError::NotFound) => rd.validate_storage(),
            };
            if !ok {
                return false;
            }
            i += 1;
        }
        true
    }

    /// Materialize the final key-to-value state: for each key the map holds,
    /// the read at the block bound gives either a value (taken through its
    /// byte image) or deltas, which are folded onto the base-state value.
    /// A key whose read yields no value and no base to fold onto is left out.
    pub fn snapshot(&self, storage: &Ledger) -> (r: Vec<(usize, Option<usize>)>)
        requires
            self.wf(),
            storage.wf(),
        ensures
            forall|p: int, q: int| 0 <= p < q < r@.len() ==> (#[trigger] r@[p]).0 != (#[trigger] r@[q]).0,
            forall|p: int|
                0 <= p < r@.len() ==> spec_snapshot_value(
                    spec_read(
                        self.entries((#[trigger] r@[p]).0),
                        self.spec_block_size(),
                        self.spec_mergeable(),
                    ),
                    storage@,
                    r@[p].0,
                ) == Some(r@[p].1),
            forall|k: usize|
                key_in(r@, r@.len() as int, k) <==> self.entries(k).len() > 0
                    && spec_snapshot_value(
                    spec_read(self.entries(k), self.spec_block_size(), self.spec_mergeable()),
                    storage@,
                    k,
                ) is Some,
    {
        let keys = self.data.keys_with_entries();
        let n = keys.len();
        let mut r: Vec<(usize, Option<usize>)> = Vec::new();
        let mut i: usize = 0;
        while i < n
            invariant
                self.wf(),
                storage.wf(),
                n == keys@.len(),
                i <= n,
                forall|a: int, b: int| 0 <= a < b < n ==> keys@[a] != keys@[b],
                forall|k: usize| keys@.contains(k) <==> self.entries(k).len() > 0,
                forall|p: int, q: int|
                    0 <= p < q < r@.len() ==> (#[trigger] r@[p]).0 != (#[trigger] r@[q]).0,
                forall|p: int|
                    0 <= p < r@.len() ==> spec_snapshot_value(
                        spec_read(
                            self.entries((#[trigger] r@[p]).0),
                            self.spec_block_size(),
                            self.spec_mergeable(),
                        ),
                        storage@,
                        r@[p].0,
                    ) == Some(r@[p].1),
                forall|p: int|
                    0 <= p < r@.len() ==> elem_in(keys@, i as int, (#[trigger] r@[p]).0),
                forall|j: int|
                    0 <= j < i && spec_snapshot_value(
                        spec_read(
                            self.entries(#[trigger] keys@[j]),
                            self.spec_block_size(),
                            self.spec_mergeable(),
                        ),
                        storage@,
                        keys@[j],
                    ) is Some ==> key_in(r@, r@.len() as int, keys@[j]),
            decreases n - i,
        {
            let k = keys[i];
            let ghost r_old = r@;
            proof {
                assert forall|p: int| 0 <= p < r@.len() implies (#[trigger] r@[p]).0 != k by {
                    let j = choose|j: int| 0 <= j < i && keys@[j] == r@[p].0;
                }
            }
            let value: Option<Option<usize>> = match self.read(&k, self.block_size) {
                Ok(MVMapOutput::Version(_version, v)) => {
                    proof {
                        crate::traits::lemma_value_roundtrip(v);
                    }
                    let bytes = match v.serialize() {
                        Some(b) => b,
                        None => {
                            proof {
                                assert(false);
                            }
                            Vec::new()
                        },
                    };
                    let w = usize::deserialize(bytes.as_slice());
                    Some(Some(w))
                },
                Ok(MVMapOutput::Merged(v)) => {
                    proof {
                        crate::traits::lemma_value_roundtrip(v);
                    }
                    let bytes = match v.serialize() {
                        Some(b) => b,
                        None => {
                            proof {
                                assert(false);
                            }
                            Vec::new()
                        },
                    };
                    let w = usize::deserialize(bytes.as_slice());
                    Some(Some(w))
                },
                Ok(MVMapOutput::PartialMerged(d)) => {
                    match storage.get(k) {
                        Some(base) => Some(Some(base.apply_delta(&d))),
                        None => None,
                    }
                },
                Ok(MVMapOutput::Unmerged(ds)) => {
                    match storage.get(k) {
                        Some(base) => {
                            let mut folded: usize = base;
                            let m = ds.len();
                            let mut q: usize = 0;
                            proof {
                                assert(ds@.skip(0) =~= ds@);
                            }
                            while q < m
                                invariant
                                    m == ds@.len(),
                                    q <= m,
                                    spec_fold_deltas(base, ds@) == spec_fold_deltas(
                                        folded,
                                        ds@.skip(q as int),
                                    ),
                                decreases m - q,
                            {
                                proof {
                                    assert(ds@.skip(q as int).first() == ds@[q as int]);
                                    assert(ds@.skip(q as int).drop_first() =~= ds@.skip(
                                        q + 1 as int,
                                    ));
                                }
                                folded = folded.apply_delta(&ds[q]);
                                q += 1;
                            }
                            proof {
                                assert(ds@.skip(m as int) =~= Seq::<DeltaOp>::empty());
                            }
                            Some(Some(folded))
                        },
                        None => None,
                    }
                },
                Err(MVMapError::NotFound) => None,
                Err(MVMapError::ReadError(_)) => None,
            };
            match value {
                Some(ov) => {
                    r.push((k, ov));
                    proof {
                        assert(r@.drop_last() =~= r_old);
                        assert forall|j: int|
                            0 <= j < i + 1 && spec_snapshot_value(
                                spec_read(
                                    self.entries(#[trigger] keys@[j]),
                                    self.spec_block_size(),
                                    self.spec_mergeable(),
                                ),
                                storage@,
                                keys@[j],
                            ) is Some implies key_in(r@, r@.len() as int, keys@[j]) by {
                            if j < i {
                                assert(key_in(r_old, r_old.len() as int, keys@[j]));
                                let q = choose|q: int|
                                    0 <= q < r_old.len() && (#[trigger] r_old[q]).0 == keys@[j];
                                assert((r@[q]).0 == keys@[j]);
                            } else {
                                assert((r@[r@.len() - 1]).0 == keys@[j]);
                            }
                        }
                        assert forall|p: int|
                            0 <= p < r@.len() implies elem_in(keys@, i + 1, (#[trigger] r@[p]).0)
                            by {
                            if p < r@.len() - 1 {
                                assert(r@[p] == r_old[p]);
                                let j = choose|j: int| 0 <= j < i && keys@[j] == r_old[p].0;
                                assert(keys@[j] == r@[p].0);
                            } else {
                                assert(keys@[i as int] == r@[p].0);
                            }
                        }
                    }
                },
                None => {
                    proof {
                        assert forall|j: int|
                            0 <= j < i + 1 && spec_snapshot_value(
                                spec_read(
                                    self.entries(#[trigger] keys@[j]),
                                    self.spec_block_size(),
                                    self.spec_mergeable(),
                                ),
                                storage@,
                                keys@[j],
                            ) is Some implies key_in(r@, r@.len() as int, keys@[j]) by {
                            assert(j != i);
                        }
                    }
                },
            }
            i += 1;
        }
        proof {
            assert forall|k: usize|
                key_in(r@, r@.len() as int, k) <==> self.entries(k).len() > 0
                    && spec_snapshot_value(
                    spec_read(self.entries(k), self.spec_block_size(), self.spec_mergeable()),
                    storage@,
                    k,
                ) is Some by {
                if key_in(r@, r@.len() as int, k) {
                    let p = choose|p: int| 0 <= p < r@.len() && (#[trigger] r@[p]).0 == k;
                    let j = choose|j: int| 0 <= j < n && keys@[j] == k;
                    assert(keys@.contains(k));
                }
                if self.entries(k).len() > 0 && spec_snapshot_value(
                    spec_read(self.entries(k), self.spec_block_size(), self.spec_mergeable()),
                    storage@,
                    k,
                ) is Some {
                    assert(keys@.contains(k));
                    let j = choose|j: int| 0 <= j < keys@.len() && keys@[j] == k;
                    assert(key_in(r@, r@.len() as int, keys@[j]));
                }
            }
        }
        r
    }
}

/// What the snapshot records for one key, given what its read observes and
/// the base state: `None` when the key is left out.
pub open spec fn spec_snapshot_value(r: SpecReadResult, st: Map<usize, usize>, k: usize) -> Option<
    Option<usize>,
> {
    match r {
        SpecReadResult::Version(_i, _inc, v) => Some(Some(v)),
        SpecReadResult::Merged(v) => Some(Some(v)),
        SpecReadResult::PartialMerged(d) => if st.contains_key(k) {
            Some(Some(spec_apply_delta(st[k], d)))
        } else {
            None
        },
        SpecReadResult::Unmerged(ds) => if st.contains_key(k) {
            Some(Some(spec_fold_deltas(st[k], ds)))
        } else {
            None
        },
        SpecReadResult::NotFound => None,
        SpecReadResult::Dependency(_b) => None,
    }
}

/// A deletion or estimate at one slot keeps the block bound.
proof fn lemma_frame_step(prev: MVMemory, cur: MVMemory, k: usize, txn_idx: TxnIndex)
    requires
        prev.wf(),
        cur.spec_block_size() == prev.spec_block_size(),
        forall|u: TxnIndex| #[trigger] cur.entry_at(k, u) is Some ==> prev.entry_at(k, u) is Some,
        forall|k2: usize| k2 != k ==> #[trigger] cur.entries(k2) == prev.entries(k2),
        cur.data.wf(),
    ensures
        cur.wf(),
    {
    assert forall|k2: usize, t: TxnIndex| #[trigger] cur.entry_at(k2, t) is Some implies t
        < cur.spec_block_size() by {
        if k2 == k {
            assert(prev.entry_at(k2, t) is Some);
        } else {
            assert(cur.entries(k2) == prev.entries(k2));
            assert(prev.entry_at(k2, t) is Some ==> t < prev.spec_block_size());
        }
    }
}

/// Whether one of the first `p` elements of the sequence is the key.
pub open spec fn elem_in(s: Seq<usize>, p: int, k: usize) -> bool {
    exists|j: int| 0 <= j < p && s[j] == k
}

/// The per-execution facade over multi-version memory: it performs the
/// versioned reads of one transaction and captures a descriptor for each,
/// for later validation.
pub struct MVMemoryView<'a> {
    txn_idx: TxnIndex,
    mvmemory: &'a MVMemory,
    captured_reads: Vec<ReadDescriptor>,
}

impl<'a> MVMemoryView<'a> {
    /// The index of the transaction this view reads for.
    pub closed spec fn spec_txn_idx(&self) -> TxnIndex {
        self.txn_idx
    }

    /// The memory this view reads from.
    pub closed spec fn spec_mvmemory(&self) -> MVMemory {
        *self.mvmemory
    }

    /// The descriptors captured so far, in read order.
    pub closed spec fn spec_captured(&self) -> Seq<ReadDescriptor> {
        self.captured_reads@
    }

    /// A fresh view for one execution of the transaction at `txn_idx`.
    pub fn new(txn_idx: TxnIndex, mvmemory: &'a MVMemory) -> (r: MVMemoryView<'a>)
        ensures
            r.spec_txn_idx() == txn_idx,
            r.spec_mvmemory() == *mvmemory,
            r.spec_captured() == Seq::<ReadDescriptor>::empty(),
    {
        MVMemoryView { txn_idx, mvmemory, captured_reads: Vec::new() }
    }

    /// The versioned read at `k`, with its descriptor captured. A read that
    /// lands on an estimate reports the blocking writer instead and captures
    /// nothing; the caller hands the dependency to the scheduler.
    pub fn read(&mut self, k: &usize) -> (r: Result<ReadResult, MVMapError>)
        requires
            old(self).spec_mvmemory().wf(),
        ensures
            final(self).spec_txn_idx() == old(self).spec_txn_idx(),
            final(self).spec_mvmemory() == old(self).spec_mvmemory(),
            ({
                let obs = spec_read(
                    old(self).spec_mvmemory().entries(*k),
                    old(self).spec_txn_idx(),
                    old(self).spec_mvmemory().spec_mergeable(),
                );
                match obs {
                    SpecReadResult::Version(i, inc, v) => {
                        &&& r matches Ok(rr) && rr matches ReadResult::Value(v2) && v2 == v
                        &&& final(self).spec_captured() == old(self).spec_captured().push(
                            ReadDescriptor { key: *k, read_type: ReadType::Version((i, inc)) },
                        )
                    },
                    SpecReadResult::Merged(v) => {
                        &&& r matches Ok(rr) && rr matches ReadResult::Merged(v2) && v2 == v
                        &&& final(self).spec_captured() == old(self).spec_captured().push(
                            ReadDescriptor { key: *k, read_type: ReadType::Merged(v) },
                        )
                    },
                    SpecReadResult::PartialMerged(d) => {
                        &&& r matches Ok(rr) && rr matches ReadResult::PartialMerged(d2) && d2 == d
                        &&& final(self).spec_captured() == old(self).spec_captured().push(
                            ReadDescriptor { key: *k, read_type: ReadType::PartialMerged(d) },
                        )
                    },
                    SpecReadResult::Unmerged(ds) => {
                        &&& r matches Ok(rr) && rr matches ReadResult::Unmerged(ds2) && ds2@ == ds
                        &&& final(self).spec_captured().len() == old(self).spec_captured().len()
                            + 1
                        &&& final(self).spec_captured().drop_last() == old(self).spec_captured()
                        &&& final(self).spec_captured().last().key == *k
                        &&& final(self).spec_captured().last().read_type matches
                            ReadType::Unmerged(ds3) && ds3@ == ds
                    },
                    SpecReadResult::NotFound => {
                        &&& r matches Ok(rr) && rr is NotFound
                        &&& final(self).spec_captured() == old(self).spec_captured().push(
                            ReadDescriptor { key: *k, read_type: ReadType::Storage },
                        )
                    },
                    SpecReadResult::Dependency(b) => {
                        &&& r matches Err(e) && e == MVMapError::ReadError(b)
                        &&& b < old(self).spec_txn_idx()
                        &&& final(self).spec_captured() == old(self).spec_captured()
                    },
                }
            }),
    {
        proof {
            lemma_spec_read_bounds(
                self.mvmemory.entries(*k),
                self.txn_idx,
                self.mvmemory.spec_mergeable(),
            );
        }
        match self.mvmemory.read(k, self.txn_idx) {
            Ok(MVMapOutput::Version(version, v)) => {
                self.captured_reads.push(ReadDescriptor::new_version(*k, version));
                Ok(ReadResult::Value(v))
            },
            Ok(MVMapOutput::Merged(v)) => {
                self.captured_reads.push(ReadDescriptor::new_merged(*k, v));
                Ok(ReadResult::Merged(v))
            },
            Ok(MVMapOutput::PartialMerged(d)) => {
                self.captured_reads.push(ReadDescriptor::new_partial_merged(*k, d));
                Ok(ReadResult::PartialMerged(d))
            },
            Ok(MVMapOutput::Unmerged(ds)) => {
                let mut copy: Vec<DeltaOp> = Vec::new();
                let m = ds.len();
                let mut q: usize = 0;
                while q < m
                    invariant
                        m == ds@.len(),
                        q <= m,
                        copy@ == ds@.take(q as int),
                    decreases m - q,
                {
                    copy.push(ds[q]);
                    proof {
                        assert(copy@ =~= ds@.take(q + 1 as int));
                    }
                    q += 1;
                }
                proof {
                    assert(copy@ =~= ds@);
                }
                self.captured_reads.push(ReadDescriptor::new_unmerged(*k, copy));
                Ok(ReadResult::Unmerged(ds))
            },
            Err(MVMapError::NotFound) => {
                self.captured_reads.push(ReadDescriptor::new_storage(*k));
                Ok(ReadResult::NotFound)
            },
            Err(MVMapError::ReadError(blocking_txn_idx)) => {
                Err(MVMapError::ReadError(blocking_txn_idx))
            },
        }
    }

    /// Hand the captured descriptors over, leaving the view empty.
    pub fn take_read_set(&mut self) -> (r: Vec<ReadDescriptor>)
        ensures
            r@ == old(self).spec_captured(),
            final(self).spec_captured() == Seq::<ReadDescriptor>::empty(),
            final(self).spec_txn_idx() == old(self).spec_txn_idx(),
            final(self).spec_mvmemory() == old(self).spec_mvmemory(),
    {
        let mut taken: Vec<ReadDescriptor> = Vec::new();
        core::mem::swap(&mut taken, &mut self.captured_reads);
        taken
    }

    /// The index of the transaction this view reads for.
    pub fn txn_idx(&self) -> (r: TxnIndex)
        ensures
            r == self.spec_txn_idx(),
    {
        self.txn_idx
    }
}

/// The latest input (captured read set) and output of each transaction,
/// replaced wholesale whenever a new incarnation finishes.
pub struct LastTxnIO<O> {
    input: Vec<Option<Vec<ReadDescriptor>>>,
    output: Vec<Option<O>>,
}

impl<O: TransactionOutput> LastTxnIO<O> {
    /// How many transactions the store covers.
    pub closed spec fn spec_len(&self) -> usize {
        self.input@.len() as usize
    }

    /// Internal shape: one input and one output slot per transaction, and
    /// every recorded output names each key at most once.
    pub closed spec fn wf(&self) -> bool {
        &&& self.input@.len() == self.output@.len()
        &&& forall|i: int|
            0 <= i < self.output@.len() ==> match #[trigger] self.output@[i] {
                Some(o) => crate::traits::output_wf(o),
                None => true,
            }
    }

    /// The last recorded read set of a transaction, if any.
    pub closed spec fn spec_input(&self, txn_idx: TxnIndex) -> Option<Seq<ReadDescriptor>> {
        match self.input@[txn_idx as int] {
            Some(rs) => Some(rs@),
            None => None,
        }
    }

    /// The last recorded output of a transaction, if any.
    pub closed spec fn spec_output(&self, txn_idx: TxnIndex) -> Option<O> {
        self.output@[txn_idx as int]
    }

    /// Empty slots for a block of `txns_num` transactions.
    pub fn new(txns_num: usize) -> (r: LastTxnIO<O>)
        ensures
            r.wf(),
            r.spec_len() == txns_num,
            forall|i: TxnIndex| i < txns_num ==> #[trigger] r.spec_input(i) is None,
            forall|i: TxnIndex| i < txns_num ==> #[trigger] r.spec_output(i) is None,
    {
        let mut input: Vec<Option<Vec<ReadDescriptor>>> = Vec::new();
        let mut output: Vec<Option<O>> = Vec::new();
        let mut i: usize = 0;
        while i < txns_num
            invariant
                i <= txns_num,
                input@.len() == i,
                output@.len() == i,
                forall|j: int| 0 <= j < i ==> input@[j] is None,
                forall|j: int| 0 <= j < i ==> output@[j] is None,
            decreases txns_num - i,
        {
            input.push(None);
            output.push(None);
            i += 1;
        }
        LastTxnIO { input, output }
    }

    /// The keys the last output of `txn_idx` wrote or issued deltas for, in
    /// output order: write-set keys first, then delta-set keys. Empty when
    /// the transaction has not recorded an output yet.
    pub fn last_modified_keys(&self, txn_idx: TxnIndex) -> (r: Vec<usize>)
        requires
            self.wf(),
            txn_idx < self.spec_len(),
        ensures
            match self.spec_output(txn_idx) {
                Some(o) => r@ == output_keys(o),
                None => r@ == Seq::<usize>::empty(),
            },
            forall|p: int, q: int| 0 <= p < q < r@.len() ==> r@[p] != r@[q],
    {
        match &self.output[txn_idx] {
            Some(o) => {
                let ws = o.get_write_set();
                let ds = o.get_delta_set();
                let mut r: Vec<usize> = Vec::new();
                let wn = ws.len();
                let mut p: usize = 0;
                while p < wn
                    invariant
                        wn == ws@.len(),
                        p <= wn,
                        r@ == ws@.map_values(|pr: (usize, usize)| pr.0).take(p as int),
                    decreases wn - p,
                {
                    r.push(ws[p].0);
                    proof {
                        assert(r@ =~= ws@.map_values(|pr: (usize, usize)| pr.0).take(p + 1 as int));
                    }
                    p += 1;
                }
                let dn = ds.len();
                let mut q: usize = 0;
                while q < dn
                    invariant
                        dn == ds@.len(),
                        wn == ws@.len(),
                        q <= dn,
                        r@ == ws@.map_values(|pr: (usize, usize)| pr.0) + ds@.map_values(
                            |pr: (usize, DeltaOp)| pr.0,
                        ).take(q as int),
                    decreases dn - q,
                {
                    r.push(ds[q].0);
                    proof {
                        assert(r@ =~= ws@.map_values(|pr: (usize, usize)| pr.0) + ds@.map_values(
                            |pr: (usize, DeltaOp)| pr.0,
                        ).take(q + 1 as int));
                    }
                    q += 1;
                }
                proof {
                    assert(ws@.map_values(|pr: (usize, usize)| pr.0).take(wn as int)
                        =~= ws@.map_values(|pr: (usize, usize)| pr.0));
                    assert(ds@.map_values(|pr: (usize, DeltaOp)| pr.0).take(dn as int)
                        =~= ds@.map_values(|pr: (usize, DeltaOp)| pr.0));
                    assert(r@ =~= output_keys(self.spec_output(txn_idx)->Some_0));
                    assert(crate::traits::output_wf(self.spec_output(txn_idx)->Some_0));
                }
                r
            },
            None => Vec::new(),
        }
    }

    /// The last recorded read set of `txn_idx`, if any.
    pub fn last_read_set(&self, txn_idx: TxnIndex) -> (r: &Option<Vec<ReadDescriptor>>)
        requires
            self.wf(),
            txn_idx < self.spec_len(),
        ensures
            match r {
                Some(rs) => self.spec_input(txn_idx) == Some(rs@),
                None => self.spec_input(txn_idx) is None,
            },
    {
        &self.input[txn_idx]
    }

    /// Replace both slots of `txn_idx` with the artifacts of the incarnation
    /// that just finished.
    pub fn record(&mut self, txn_idx: TxnIndex, input: Vec<ReadDescriptor>, output: O)
        requires
            old(self).wf(),
            txn_idx < old(self).spec_len(),
            crate::traits::output_wf(output),
        ensures
            final(self).wf(),
            final(self).spec_len() == old(self).spec_len(),
            final(self).spec_input(txn_idx) == Some(input@),
            final(self).spec_output(txn_idx) == Some(output),
            forall|i: TxnIndex|
                i < old(self).spec_len() && i != txn_idx ==> #[trigger] final(self).spec_input(i)
                    == old(self).spec_input(i),
            forall|i: TxnIndex|
                i < old(self).spec_len() && i != txn_idx ==> #[trigger] final(self).spec_output(i)
                    == old(self).spec_output(i),
    {
        self.input[txn_idx] = Some(input);
        self.output[txn_idx] = Some(output);
    }

    /// Every recorded output names each key at most once.
    pub proof fn lemma_output_wf(&self, txn_idx: TxnIndex)
        requires
            self.wf(),
            txn_idx < self.spec_len(),
        ensures
            match self.spec_output(txn_idx) {
                Some(o) => crate::traits::output_wf(o),
                None => true,
            },
    {
    }

    /// Whether `txn_idx` has a recorded output that was not yet taken.
    pub fn has_output(&self, txn_idx: TxnIndex) -> (r: bool)
        requires
            self.wf(),
            txn_idx < self.spec_len(),
        ensures
            r == (self.spec_output(txn_idx) is Some),
    {
        match &self.output[txn_idx] {
            Some(_) => true,
            None => false,
        }
    }

    /// Move the output of `txn_idx` out, leaving its slot empty; the
    /// transaction must have recorded one that was not yet taken.
    pub fn take_output(&mut self, txn_idx: TxnIndex) -> (r: O)
        requires
            old(self).wf(),
            txn_idx < old(self).spec_len(),
            old(self).spec_output(txn_idx) is Some,
        ensures
            final(self).wf(),
            final(self).spec_len() == old(self).spec_len(),
            Some(r) == old(self).spec_output(txn_idx),
            final(self).spec_output(txn_idx) is None,
            forall|i: TxnIndex|
                i < old(self).spec_len() && i != txn_idx ==> #[trigger] final(self).spec_output(i)
                    == old(self).spec_output(i),
            forall|i: TxnIndex|
                i < old(self).spec_len() ==> #[trigger] final(self).spec_input(i) == old(
                    self,
                ).spec_input(i),
    {
        let mut slot: Option<O> = None;
        core::mem::swap(&mut slot, &mut self.output[txn_idx]);
        match slot {
            Some(o) => o,
            None => {
                proof {
                    assert(false);
                }
                vstd::pervasive::unreached()
            },
        }
    }
}

/// `key_in_pairs` answers membership over the whole pair sequence.
proof fn lemma_key_in_pairs_eq<X>(s: Seq<(usize, X)>, k: usize)
    ensures
        s.map_values(|pr: (usize, X)| pr.0).contains(k) <==> key_in(s, s.len() as int, k),
{
    let keys = s.map_values(|pr: (usize, X)| pr.0);
    if keys.contains(k) {
        let j = choose|j: int| 0 <= j < keys.len() && keys[j] == k;
        assert(s[j].0 == k);
    }
    if key_in(s, s.len() as int, k) {
        let j = choose|j: int| 0 <= j < s.len() && (#[trigger] s[j]).0 == k;
        assert(keys[j] == k);
    }
}

} // verus!
