//! The multi-version map: for each key, the writes and deltas of the
//! transactions that touched it, ordered by transaction index.
//!
//! Each entry carries an estimate flag; a read that lands on a flagged entry
//! reports a dependency on its writer instead of a value, because the writer
//! is about to re-execute.

use vstd::prelude::*;

use crate::kvmap::{has_key, keys_unique, lemma_has_key_index, lemma_map_of_dom,
    lemma_map_of_index, lemma_map_of_insert_at, lemma_map_of_push, lemma_map_of_remove,
    lemma_map_of_update, map_of};
use crate::traits::{spec_apply_delta, spec_merge_deltas, DeltaOp, IsReadError, Mergeable};
use crate::types::{Incarnation, TxnIndex, Version};

verus! {

/// The payload of one multi-version entry.
#[derive(Clone, Copy, PartialEq, Eq, Structural, Debug)]
pub enum EntryCell {
    /// A materialized write from the given incarnation.
    Write(Incarnation, usize),
    /// A commutative delta.
    Delta(DeltaOp),
}

/// One multi-version entry: its payload and the estimate flag.
#[derive(Clone, Copy, PartialEq, Eq, Structural, Debug)]
pub struct Entry {
    /// Raised when the writing transaction is known to be about to
    /// re-execute.
    pub estimate: bool,
    /// The payload.
    pub cell: EntryCell,
}

/// What a versioned read observes, at the specification level.
pub enum SpecReadResult {
    /// The un-flagged write with the highest index below the reader,
    /// with no delta above it.
    Version(TxnIndex, Incarnation, usize),
    /// A write below the reader with deltas folded on top of it.
    Merged(usize),
    /// Only deltas below the reader, folded into one.
    PartialMerged(DeltaOp),
    /// Only deltas below the reader, in block order.
    Unmerged(Seq<DeltaOp>),
    /// Nothing below the reader.
    NotFound,
    /// The highest entry below the reader is flagged as an estimate; its
    /// writer index is reported.
    Dependency(TxnIndex),
}

/// Deltas folded one by one, in sequence order, onto a base value.
pub open spec fn spec_fold_deltas(v: usize, ds: Seq<DeltaOp>) -> usize
    decreases ds.len(),
{
    if ds.len() == 0 {
        v
    } else {
        spec_fold_deltas(spec_apply_delta(v, ds.first()), ds.drop_first())
    }
}

/// The partial-merge read: walk the entries with index below `t` from the
/// highest down, accumulating deltas into a single one, until a write or a
/// flagged entry is met.
pub open spec fn spec_read_merge(s: Seq<(TxnIndex, Entry)>, t: TxnIndex, acc: Option<
    DeltaOp,
>) -> SpecReadResult
    decreases s.len(),
{
    if s.len() == 0 {
        match acc {
            Some(d) => SpecReadResult::PartialMerged(d),
            None => SpecReadResult::NotFound,
        }
    } else if s.last().0 >= t {
        spec_read_merge(s.drop_last(), t, acc)
    } else if s.last().1.estimate {
        SpecReadResult::Dependency(s.last().0)
    } else {
        match (s.last().1.cell, acc) {
            (EntryCell::Write(inc, v), None) => SpecReadResult::Version(s.last().0, inc, v),
            (EntryCell::Write(_inc, v), Some(d)) => SpecReadResult::Merged(spec_apply_delta(v, d)),
            (EntryCell::Delta(d), None) => spec_read_merge(s.drop_last(), t, Some(d)),
            (EntryCell::Delta(d), Some(acc_d)) => spec_read_merge(
                s.drop_last(),
                t,
                Some(spec_merge_deltas(d, acc_d)),
            ),
        }
    }
}

/// The list read: as `spec_read_merge`, but deltas are collected in walk
/// order and handed back unmerged (reversed into block order), or folded
/// one by one onto the first write met.
pub open spec fn spec_read_list(s: Seq<(TxnIndex, Entry)>, t: TxnIndex, acc: Seq<
    DeltaOp,
>) -> SpecReadResult
    decreases s.len(),
{
    if s.len() == 0 {
        if acc.len() == 0 {
            SpecReadResult::NotFound
        } else {
            SpecReadResult::Unmerged(acc.reverse())
        }
    } else if s.last().0 >= t {
        spec_read_list(s.drop_last(), t, acc)
    } else if s.last().1.estimate {
        SpecReadResult::Dependency(s.last().0)
    } else {
        match s.last().1.cell {
            EntryCell::Write(inc, v) => if acc.len() == 0 {
                SpecReadResult::Version(s.last().0, inc, v)
            } else {
                SpecReadResult::Merged(spec_fold_deltas(v, acc.reverse()))
            },
            EntryCell::Delta(d) => spec_read_list(s.drop_last(), t, acc.push(d)),
        }
    }
}

/// The read observed at a key whose entries are `s`, by the transaction at
/// index `t`, under the given delta-merging mode.
pub open spec fn spec_read(s: Seq<(TxnIndex, Entry)>, t: TxnIndex, mergeable: bool) -> SpecReadResult {
    if mergeable {
        spec_read_merge(s, t, None)
    } else {
        spec_read_list(s, t, Seq::empty())
    }
}

/// What a read of the multi-version map hands back.
#[derive(Debug, PartialEq, Eq)]
pub enum MVMapOutput {
    /// A plain write: the version that produced it and its value.
    Version(Version, usize),
    /// Deltas folded into one, with no write beneath them.
    PartialMerged(DeltaOp),
    /// Deltas in block order, with no write beneath them.
    Unmerged(Vec<DeltaOp>),
    /// A write with deltas folded on top.
    Merged(usize),
}

/// Why a read of the multi-version map hands nothing back.
#[derive(Debug, PartialEq, Eq, Structural)]
pub enum MVMapError {
    /// No entry lies below the reading transaction.
    NotFound,
    /// The entry met first is flagged; the reader depends on this writer.
    ReadError(TxnIndex),
}

impl IsReadError for MVMapError {
    open spec fn spec_is_read_error(&self) -> bool {
        self is ReadError
    }

    open spec fn spec_blocking_txn_idx(&self) -> Option<TxnIndex> {
        match *self {
            MVMapError::ReadError(i) => Some(i),
            MVMapError::NotFound => None,
        }
    }

    fn is_read_error(&self) -> (r: bool) {
        match self {
            MVMapError::ReadError(_) => true,
            MVMapError::NotFound => false,
        }
    }

    fn get_blocking_txn_idx(&self) -> (r: Option<TxnIndex>) {
        match self {
            MVMapError::ReadError(i) => Some(*i),
            MVMapError::NotFound => None,
        }
    }
}

/// The specification-level image of an exec read result.
pub open spec fn read_result_view(r: Result<MVMapOutput, MVMapError>) -> SpecReadResult {
    match r {
        Ok(MVMapOutput::Version((i, inc), v)) => SpecReadResult::Version(i, inc, v),
        Ok(MVMapOutput::PartialMerged(d)) => SpecReadResult::PartialMerged(d),
        Ok(MVMapOutput::Unmerged(ds)) => SpecReadResult::Unmerged(ds@),
        Ok(MVMapOutput::Merged(v)) => SpecReadResult::Merged(v),
        Err(MVMapError::NotFound) => SpecReadResult::NotFound,
        Err(MVMapError::ReadError(i)) => SpecReadResult::Dependency(i),
    }
}

/// The entries of one key, kept sorted by strictly increasing transaction
/// index.
pub struct VersionedEntries {
    entries: Vec<(TxnIndex, Entry)>,
}

impl View for VersionedEntries {
    type V = Seq<(TxnIndex, Entry)>;

    closed spec fn view(&self) -> Seq<(TxnIndex, Entry)> {
        self.entries@
    }
}

impl VersionedEntries {
    /// Internal shape: indices strictly increase along the vector.
    pub open spec fn wf(&self) -> bool {
        forall|i: int, j: int|
            0 <= i < j < self@.len() ==> (#[trigger] self@[i]).0 < (#[trigger] self@[j]).0
    }

    /// The entry this key holds for the given transaction, if any.
    pub open spec fn spec_entry(&self, t: TxnIndex) -> Option<Entry> {
        if map_of(self@).contains_key(t) {
            Some(map_of(self@)[t])
        } else {
            None
        }
    }

    proof fn lemma_wf_unique(&self)
        requires
            self.wf(),
        ensures
            keys_unique(self@),
    {
    }

    /// The entry held for transaction `t`, if any.
    pub fn read_entry(&self, t: TxnIndex) -> (r: Option<Entry>)
        requires
            self.wf(),
        ensures
            r == self.spec_entry(t),
    {
        proof {
            self.lemma_wf_unique();
        }
        let p = self.lower_bound(t);
        if p < self.entries.len() && self.entries[p].0 == t {
            proof {
                lemma_map_of_index(self@, p as int);
            }
            Some(self.entries[p].1)
        } else {
            proof {
                lemma_map_of_dom(self@, t);
                lemma_has_key_index(self@, t);
                if self.spec_entry(t) is Some {
                    let i = choose|i: int| 0 <= i < self@.len() && (#[trigger] self@[i]).0 == t;
                    if i < p {
                        assert(self@[i].0 < t);
                    } else if i > p {
                        assert(self@[(p as int)].0 >= t);
                        assert(self@[(p as int)].0 < self@[i].0);
                    }
                }
            }
            None
        }
    }

    /// A key with no entries.
    pub fn new() -> (r: VersionedEntries)
        ensures
            r.wf(),
            r@ == Seq::<(TxnIndex, Entry)>::empty(),
            forall|t: TxnIndex| r.spec_entry(t) is None,
    {
        let r = VersionedEntries { entries: Vec::new() };
        proof {
            assert forall|t: TxnIndex| r.spec_entry(t) is None by {
                lemma_map_of_dom(r@, t);
            }
        }
        r
    }

    /// Whether this key holds no entries.
    pub fn is_empty(&self) -> (r: bool)
        ensures
            r == (self@.len() == 0),
    {
        self.entries.len() == 0
    }

    /// The position of the first entry with index at least `t`.
    fn lower_bound(&self, t: TxnIndex) -> (r: usize)
        requires
            self.wf(),
        ensures
            r <= self@.len(),
            forall|j: int| 0 <= j < r ==> (#[trigger] self@[j]).0 < t,
            forall|j: int| r <= j < self@.len() ==> (#[trigger] self@[j]).0 >= t,
    {
        let n = self.entries.len();
        let mut i: usize = 0;
        while i < n
            invariant
                self.wf(),
                n == self@.len(),
                i <= n,
                forall|j: int| 0 <= j < i ==> (#[trigger] self@[j]).0 < t,
            decreases n - i,
        {
            if self.entries[i].0 >= t {
                return i;
            }
            i += 1;
        }
        n
    }

    /// Put an entry for transaction `t`, replacing any entry it had.
    pub fn insert(&mut self, t: TxnIndex, e: Entry)
        requires
            old(self).wf(),
        ensures
            final(self).wf(),
            final(self).spec_entry(t) == Some(e),
            forall|u: TxnIndex| u != t ==> final(self).spec_entry(u) == old(self).spec_entry(u),
    {
        proof {
            self.lemma_wf_unique();
        }
        let p = self.lower_bound(t);
        let ghost s = self@;
        if p < self.entries.len() && self.entries[p].0 == t {
            proof {
                lemma_map_of_update(s, p as int, e);
            }
            self.entries[p] = (t, e);
        } else {
            proof {
                lemma_has_key_index(s, t);
                lemma_map_of_insert_at(s, p as int, t, e);
            }
            self.entries.insert(p, (t, e));
            proof {
                assert forall|i: int, j: int| 0 <= i < j < self@.len() implies (
                #[trigger] self@[i]).0 < (#[trigger] self@[j]).0 by {
                    let si = if i < p {
                        i
                    } else {
                        i - 1
                    };
                    let sj = if j < p {
                        j
                    } else {
                        j - 1
                    };
                    if i == p {
                        assert(self@[j] == s[sj]);
                    } else if j == p {
                        assert(self@[i] == s[si]);
                    } else {
                        assert(self@[i] == s[si] && self@[j] == s[sj]);
                    }
                }
            }
        }
        proof {
            lemma_map_of_dom(self@, t);
            assert forall|u: TxnIndex| u != t implies self.spec_entry(u) == old(
                self,
            ).spec_entry(u) by {
                lemma_map_of_dom(self@, u);
                lemma_map_of_dom(s, u);
            }
        }
    }

    /// Raise the estimate flag of the entry for transaction `t`.
    pub fn mark_estimate(&mut self, t: TxnIndex)
        requires
            old(self).wf(),
            old(self).spec_entry(t) is Some,
        ensures
            final(self).wf(),
            final(self).spec_entry(t) == Some(
                Entry { estimate: true, cell: old(self).spec_entry(t)->Some_0.cell },
            ),
            forall|u: TxnIndex| u != t ==> final(self).spec_entry(u) == old(self).spec_entry(u),
    {
        proof {
            self.lemma_wf_unique();
        }
        let p = self.lower_bound(t);
        let ghost s = self@;
        proof {
            lemma_map_of_dom(s, t);
            lemma_has_key_index(s, t);
            let i = choose|i: int| 0 <= i < s.len() && (#[trigger] s[i]).0 == t;
            assert(p == i) by {
                if i < p {
                    assert(s[i].0 < t);
                } else if i > p {
                    assert(s[(p as int)].0 >= t);
                    assert(s[(p as int)].0 < s[i].0);
                }
            }
            lemma_map_of_index(s, p as int);
            lemma_map_of_update(s, p as int, Entry { estimate: true, cell: s[p as int].1.cell });
        }
        let e = Entry { estimate: true, cell: self.entries[p].1.cell };
        self.entries[p] = (t, e);
        proof {
            lemma_map_of_dom(self@, t);
            assert forall|u: TxnIndex| u != t implies self.spec_entry(u) == old(
                self,
            ).spec_entry(u) by {
                lemma_map_of_dom(self@, u);
                lemma_map_of_dom(s, u);
            }
        }
    }

    /// Drop the entry for transaction `t`.
    pub fn remove(&mut self, t: TxnIndex)
        requires
            old(self).wf(),
            old(self).spec_entry(t) is Some,
        ensures
            final(self).wf(),
            final(self).spec_entry(t) is None,
            forall|u: TxnIndex| u != t ==> final(self).spec_entry(u) == old(self).spec_entry(u),
    {
        proof {
            self.lemma_wf_unique();
        }
        let p = self.lower_bound(t);
        let ghost s = self@;
        proof {
            lemma_map_of_dom(s, t);
            lemma_has_key_index(s, t);
            let i = choose|i: int| 0 <= i < s.len() && (#[trigger] s[i]).0 == t;
            assert(p == i) by {
                if i < p {
                    assert(s[i].0 < t);
                } else if i > p {
                    assert(s[(p as int)].0 >= t);
                    assert(s[(p as int)].0 < s[i].0);
                }
            }
            lemma_map_of_remove(s, p as int);
        }
        self.entries.remove(p);
        proof {
            assert forall|i: int, j: int| 0 <= i < j < self@.len() implies (#[trigger] self@[i]).0
                < (#[trigger] self@[j]).0 by {
                let si = if i < p {
                    i
                } else {
                    i + 1
                };
                let sj = if j < p {
                    j
                } else {
                    j + 1
                };
                assert(self@[i] == s[si] && self@[j] == s[sj]);
            }
            lemma_map_of_dom(self@, t);
            assert forall|u: TxnIndex| u != t implies self.spec_entry(u) == old(
                self,
            ).spec_entry(u) by {
                lemma_map_of_dom(self@, u);
                lemma_map_of_dom(s, u);
            }
        }
    }

    /// The versioned read below transaction `t`, in partial-merge mode or in
    /// list mode.
    pub fn read(&self, t: TxnIndex, mergeable: bool) -> (r: Result<MVMapOutput, MVMapError>)
        requires
            self.wf(),
        ensures
            read_result_view(r) == spec_read(self@, t, mergeable),
    {
        let p = self.lower_bound(t);
        proof {
            lemma_spec_read_take(self@, t, p as int);
        }
        if mergeable {
            let mut acc: Option<DeltaOp> = None;
            let mut j: usize = p;
            while j > 0
                invariant
                    mergeable,
                    self.wf(),
                    j <= p <= self@.len(),
                    forall|q: int| 0 <= q < p ==> (#[trigger] self@[q]).0 < t,
                    spec_read_merge(self@, t, None) == spec_read_merge(
                        self@.take(j as int),
                        t,
                        acc,
                    ),
                decreases j,
            {
                let (idx, e) = self.entries[j - 1];
                proof {
                    assert(self@.take(j as int).last() == self@[j - 1]);
                    assert(self@.take(j as int).drop_last() =~= self@.take(j - 1));
                }
                if e.estimate {
                    return Err(MVMapError::ReadError(idx));
                }
                match (e.cell, &acc) {
                    (EntryCell::Write(inc, v), Option::None) => {
                        return Ok(MVMapOutput::Version((idx, inc), v));
                    },
                    (EntryCell::Write(_inc, v), Option::Some(d)) => {
                        return Ok(MVMapOutput::Merged(v.apply_delta(d)));
                    },
                    (EntryCell::Delta(d), Option::None) => {
                        acc = Some(d);
                    },
                    (EntryCell::Delta(d), Option::Some(acc_d)) => {
                        acc = Some(usize::partial_merge(&d, acc_d));
                    },
                }
                j -= 1;
            }
            proof {
                assert(self@.take(0) =~= Seq::<(TxnIndex, Entry)>::empty());
            }
            match acc {
                Some(d) => Ok(MVMapOutput::PartialMerged(d)),
                None => Err(MVMapError::NotFound),
            }
        } else {
            let mut acc: Vec<DeltaOp> = Vec::new();
            let mut j: usize = p;
            while j > 0
                invariant
                    !mergeable,
                    self.wf(),
                    j <= p <= self@.len(),
                    forall|q: int| 0 <= q < p ==> (#[trigger] self@[q]).0 < t,
                    spec_read_list(self@, t, Seq::empty()) == spec_read_list(
                        self@.take(j as int),
                        t,
                        acc@,
                    ),
                decreases j,
            {
                let (idx, e) = self.entries[j - 1];
                proof {
                    assert(self@.take(j as int).last() == self@[j - 1]);
                    assert(self@.take(j as int).drop_last() =~= self@.take(j - 1));
                }
                if e.estimate {
                    return Err(MVMapError::ReadError(idx));
                }
                match e.cell {
                    EntryCell::Write(inc, v) => {
                        if acc.len() == 0 {
                            return Ok(MVMapOutput::Version((idx, inc), v));
                        } else {
                            let mut folded: usize = v;
                            let mut q: usize = acc.len();
                            proof {
                                assert(acc@.reverse().skip(0) =~= acc@.reverse());
                            }
                            while q > 0
                                invariant
                                    q <= acc@.len(),
                                    spec_fold_deltas(v, acc@.reverse()) == spec_fold_deltas(
                                        folded,
                                        acc@.reverse().skip(acc@.len() - q as int),
                                    ),
                                decreases q,
                            {
                                let ghost rest = acc@.reverse().skip(acc@.len() - q as int);
                                proof {
                                    assert(rest.first() == acc@.reverse()[acc@.len() - q as int]);
                                    assert(acc@.reverse()[acc@.len() - q as int] == acc@[q - 1]);
                                    assert(rest.drop_first() =~= acc@.reverse().skip(
                                        acc@.len() - q + 1 as int,
                                    ));
                                }
                                folded = folded.apply_delta(&acc[q - 1]);
                                q -= 1;
                            }
                            proof {
                                assert(acc@.reverse().skip(acc@.len() as int)
                                    =~= Seq::<DeltaOp>::empty());
                            }
                            return Ok(MVMapOutput::Merged(folded));
                        }
                    },
                    EntryCell::Delta(d) => {
                        acc.push(d);
                    },
                }
                j -= 1;
            }
            proof {
                assert(self@.take(0) =~= Seq::<(TxnIndex, Entry)>::empty());
            }
            if acc.len() == 0 {
                Err(MVMapError::NotFound)
            } else {
                let mut rev: Vec<DeltaOp> = Vec::new();
                let mut q: usize = acc.len();
                while q > 0
                    invariant
                        q <= acc@.len(),
                        rev@ =~= acc@.reverse().take(acc@.len() - q as int),
                    decreases q,
                {
                    proof {
                        assert(acc@.reverse()[acc@.len() - q as int] == acc@[q - 1]);
                        assert(acc@.reverse().take(acc@.len() - q + 1 as int) =~= acc@.reverse()
                            .take(acc@.len() - q as int).push(acc@[q - 1 as int]));
                    }
                    rev.push(acc[q - 1]);
                    q -= 1;
                }
                proof {
                    assert(rev@ =~= acc@.reverse());
                }
                Ok(MVMapOutput::Unmerged(rev))
            }
        }
    }
}

/// The entry a sorted entry sequence holds for one transaction.
pub open spec fn entry_of(s: Seq<(TxnIndex, Entry)>, t: TxnIndex) -> Option<Entry> {
    if map_of(s).contains_key(t) {
        Some(map_of(s)[t])
    } else {
        None
    }
}

/// Whether an element occurs in a key vector.
pub fn vec_contains(xs: &Vec<usize>, k: usize) -> (r: bool)
    ensures
        r == xs@.contains(k),
{
    let n = xs.len();
    let mut i: usize = 0;
    while i < n
        invariant
            n == xs@.len(),
            i <= n,
            forall|j: int| 0 <= j < i ==> xs@[j] != k,
        decreases n - i,
    {
        if xs[i] == k {
            return true;
        }
        i += 1;
    }
    false
}

/// Whether a pair vector carries the key in its first components.
pub fn key_in_pairs<V>(xs: &Vec<(usize, V)>, k: usize) -> (r: bool)
    ensures
        r == xs@.map_values(|p: (usize, V)| p.0).contains(k),
{
    let n = xs.len();
    let mut i: usize = 0;
    while i < n
        invariant
            n == xs@.len(),
            i <= n,
            forall|j: int| 0 <= j < i ==> (#[trigger] xs@[j]).0 != k,
        decreases n - i,
    {
        if xs[i].0 == k {
            proof {
                assert(xs@.map_values(|p: (usize, V)| p.0)[i as int] == k);
            }
            return true;
        }
        i += 1;
    }
    proof {
        let keys = xs@.map_values(|p: (usize, V)| p.0);
        assert forall|j: int| 0 <= j < keys.len() implies keys[j] != k by {
            assert(keys[j] == xs@[j].0);
        }
    }
    false
}

/// The multi-version map: per key, the sorted entries of the transactions
/// that touched it. Whether reads merge deltas is fixed at construction.
pub struct MVMap {
    mergeable: bool,
    inner: Vec<(usize, VersionedEntries)>,
}

impl MVMap {
    /// Internal shape: distinct keys, each with sorted entries.
    pub closed spec fn wf(&self) -> bool {
        &&& keys_unique(self.inner@)
        &&& forall|p: int| 0 <= p < self.inner@.len() ==> (#[trigger] self.inner@[p]).1.wf()
    }

    /// Whether reads fold deltas into a single one.
    pub closed spec fn spec_mergeable(&self) -> bool {
        self.mergeable
    }

    /// The entries the map holds for a key, sorted by transaction index;
    /// empty if the map never saw the key.
    pub closed spec fn entries(&self, k: usize) -> Seq<(TxnIndex, Entry)> {
        if map_of(self.inner@).contains_key(k) {
            map_of(self.inner@)[k]@
        } else {
            Seq::empty()
        }
    }

    /// The entry the map holds at `(k, t)`, if any.
    pub open spec fn entry_at(&self, k: usize, t: TxnIndex) -> Option<Entry> {
        entry_of(self.entries(k), t)
    }

    /// The entries of a key are sorted by strictly increasing index.
    pub proof fn lemma_entries_sorted(&self, k: usize)
        requires
            self.wf(),
        ensures
            forall|i: int, j: int|
                0 <= i < j < self.entries(k).len() ==> (#[trigger] self.entries(k)[i]).0 < (
                #[trigger] self.entries(k)[j]).0,
    {
        if map_of(self.inner@).contains_key(k) {
            lemma_map_of_dom(self.inner@, k);
            lemma_has_key_index(self.inner@, k);
            let i = choose|i: int|
                0 <= i < self.inner@.len() && (#[trigger] self.inner@[i]).0 == k;
            lemma_map_of_index(self.inner@, i);
        }
    }

    /// The entries of a key are exactly the slots `entry_at` answers for:
    /// each listed pair is the entry at its index, and every filled slot is
    /// listed.
    pub proof fn lemma_entries_characterization(&self, k: usize)
        requires
            self.wf(),
        ensures
            forall|p: int|
                0 <= p < self.entries(k).len() ==> self.entry_at(
                    k,
                    (#[trigger] self.entries(k)[p]).0,
                ) == Some(self.entries(k)[p].1),
            forall|t: TxnIndex|
                #[trigger] self.entry_at(k, t) is Some ==> exists|p: int|
                    0 <= p < self.entries(k).len() && (#[trigger] self.entries(k)[p]).0 == t,
    {
        self.lemma_entries_sorted(k);
        let s = self.entries(k);
        assert(keys_unique(s));
        assert forall|p: int|
            0 <= p < s.len() implies self.entry_at(k, (#[trigger] s[p]).0) == Some(s[p].1) by {
            lemma_map_of_index(s, p);
        }
        assert forall|t: TxnIndex| #[trigger] self.entry_at(k, t) is Some implies exists|p: int|
            0 <= p < s.len() && (#[trigger] s[p]).0 == t by {
            lemma_map_of_dom(s, t);
            lemma_has_key_index(s, t);
        }
    }

    /// An empty map.
    pub fn new(mergeable: bool) -> (r: MVMap)
        ensures
            r.wf(),
            r.spec_mergeable() == mergeable,
            forall|k: usize| r.entries(k) == Seq::<(TxnIndex, Entry)>::empty(),
    {
        let r = MVMap { mergeable, inner: Vec::new() };
        proof {
            assert forall|k: usize| r.entries(k) == Seq::<(TxnIndex, Entry)>::empty() by {
                lemma_map_of_dom(r.inner@, k);
            }
        }
        r
    }

    /// Index of the pair holding `k`, if the map has seen the key.
    fn find(&self, k: usize) -> (r: Option<usize>)
        requires
            self.wf(),
        ensures
            match r {
                Some(i) => i < self.inner@.len() && self.inner@[i as int].0 == k
                    && map_of(self.inner@).contains_key(k) && map_of(self.inner@)[k]
                    == self.inner@[i as int].1,
                None => !map_of(self.inner@).contains_key(k) && self.entries(k)
                    == Seq::<(TxnIndex, Entry)>::empty(),
            },
    {
        let n = self.inner.len();
        let mut i: usize = 0;
        while i < n
            invariant
                self.wf(),
                n == self.inner@.len(),
                i <= n,
                forall|j: int| 0 <= j < i ==> (#[trigger] self.inner@[j]).0 != k,
            decreases n - i,
        {
            if self.inner[i].0 == k {
                proof {
                    lemma_map_of_index(self.inner@, i as int);
                }
                return Some(i);
            }
            i += 1;
        }
        proof {
            lemma_map_of_dom(self.inner@, k);
            lemma_has_key_index(self.inner@, k);
        }
        None
    }

    /// Put an entry at `(k, t)`, replacing what the slot held.
    fn upsert(&mut self, k: usize, t: TxnIndex, e: Entry)
        requires
            old(self).wf(),
        ensures
            final(self).wf(),
            final(self).spec_mergeable() == old(self).spec_mergeable(),
            final(self).entry_at(k, t) == Some(e),
            forall|u: TxnIndex| u != t ==> final(self).entry_at(k, u) == old(self).entry_at(k, u),
            forall|k2: usize| k2 != k ==> final(self).entries(k2) == old(self).entries(k2),
    {
        let ghost s = self.inner@;
        match self.find(k) {
            Some(i) => {
                let ve = &mut self.inner[i].1;
                ve.insert(t, e);
                proof {
                    lemma_map_of_update(s, i as int, self.inner@[i as int].1);
                    assert(self.inner@ =~= s.update(i as int, (k, self.inner@[i as int].1)));
                    assert forall|p: int| 0 <= p < self.inner@.len() implies (
                    #[trigger] self.inner@[p]).1.wf() by {
                        if p != i {
                            assert(self.inner@[p] == s[p]);
                        }
                    }
                    assert forall|u: TxnIndex| u != t implies self.entry_at(k, u) == old(
                        self,
                    ).entry_at(k, u) by {
                        assert(self.inner@[i as int].1.spec_entry(u) == s[i as int].1.spec_entry(
                            u,
                        ));
                        assert(self.entries(k) == self.inner@[i as int].1@);
                        assert(old(self).entries(k) == s[i as int].1@);
                    }
                    assert forall|k2: usize| k2 != k implies self.entries(k2) == old(
                        self,
                    ).entries(k2) by {
                        lemma_map_of_dom(self.inner@, k2);
                        lemma_map_of_dom(s, k2);
                    }
                }
            },
            None => {
                let mut ve = VersionedEntries::new();
                ve.insert(t, e);
                let ghost ve_g = ve;
                proof {
                    lemma_map_of_dom(s, k);
                    lemma_has_key_index(s, k);
                    lemma_map_of_push(s, k, ve_g);
                }
                self.inner.push((k, ve));
                proof {
                    assert forall|p: int| 0 <= p < self.inner@.len() implies (
                    #[trigger] self.inner@[p]).1.wf() by {
                        if p < self.inner@.len() - 1 {
                            assert(self.inner@[p] == s[p]);
                        }
                    }
                    assert forall|u: TxnIndex| u != t implies self.entry_at(k, u) == old(
                        self,
                    ).entry_at(k, u) by {
                        assert(ve_g.spec_entry(u) is None);
                        assert(self.entries(k) == ve_g@);
                    }
                    assert forall|k2: usize| k2 != k implies self.entries(k2) == old(
                        self,
                    ).entries(k2) by {
                        lemma_map_of_dom(self.inner@, k2);
                        lemma_map_of_dom(s, k2);
                    }
                }
            },
        }
    }

    /// Record a materialized write at `(k, version.0)`: a fresh entry, not an
    /// estimate, carrying the incarnation that produced it.
    pub fn write(&mut self, k: usize, v: usize, version: Version)
        requires
            old(self).wf(),
        ensures
            final(self).wf(),
            final(self).spec_mergeable() == old(self).spec_mergeable(),
            final(self).entry_at(k, version.0) == Some(
                Entry { estimate: false, cell: EntryCell::Write(version.1, v) },
            ),
            forall|u: TxnIndex|
                u != version.0 ==> final(self).entry_at(k, u) == old(self).entry_at(k, u),
            forall|k2: usize| k2 != k ==> final(self).entries(k2) == old(self).entries(k2),
    {
        let (txn_idx, incarnation) = version;
        self.upsert(k, txn_idx, Entry { estimate: false, cell: EntryCell::Write(incarnation, v) });
    }

    /// Record a delta at `(k, version.0)`: a fresh entry, not an estimate.
    pub fn delta(&mut self, k: usize, d: DeltaOp, version: Version)
        requires
            old(self).wf(),
        ensures
            final(self).wf(),
            final(self).spec_mergeable() == old(self).spec_mergeable(),
            final(self).entry_at(k, version.0) == Some(
                Entry { estimate: false, cell: EntryCell::Delta(d) },
            ),
            forall|u: TxnIndex|
                u != version.0 ==> final(self).entry_at(k, u) == old(self).entry_at(k, u),
            forall|k2: usize| k2 != k ==> final(self).entries(k2) == old(self).entries(k2),
    {
        let (txn_idx, _) = version;
        self.upsert(k, txn_idx, Entry { estimate: false, cell: EntryCell::Delta(d) });
    }

    /// Raise the estimate flag on the entry at `(k, txn_idx)`, which must
    /// exist: readers below are pushed to report a dependency instead of
    /// consuming a value that is about to change.
    pub fn mark_estimate(&mut self, k: &usize, txn_idx: TxnIndex)
        requires
            old(self).wf(),
            old(self).entry_at(*k, txn_idx) is Some,
        ensures
            final(self).wf(),
            final(self).spec_mergeable() == old(self).spec_mergeable(),
            final(self).entry_at(*k, txn_idx) == Some(
                Entry {
                    estimate: true,
                    cell: old(self).entry_at(*k, txn_idx)->Some_0.cell,
                },
            ),
            forall|u: TxnIndex|
                u != txn_idx ==> final(self).entry_at(*k, u) == old(self).entry_at(*k, u),
            forall|k2: usize| k2 != *k ==> final(self).entries(k2) == old(self).entries(k2),
    {
        let ghost s = self.inner@;
        let i = match self.find(*k) {
            Some(i) => i,
            None => {
                proof {
                    lemma_map_of_dom(Seq::<(TxnIndex, Entry)>::empty(), txn_idx);
                    assert(false);
                }
                vstd::pervasive::unreached()
            },
        };
        let ve = &mut self.inner[i].1;
        ve.mark_estimate(txn_idx);
        proof {
            lemma_map_of_update(s, i as int, self.inner@[i as int].1);
            assert(self.inner@ =~= s.update(i as int, (*k, self.inner@[i as int].1)));
            assert forall|p: int| 0 <= p < self.inner@.len() implies (
            #[trigger] self.inner@[p]).1.wf() by {
                if p != i {
                    assert(self.inner@[p] == s[p]);
                }
            }
            assert forall|u: TxnIndex| u != txn_idx implies self.entry_at(*k, u) == old(
                self,
            ).entry_at(*k, u) by {
                assert(self.inner@[i as int].1.spec_entry(u) == s[i as int].1.spec_entry(u));
                assert(self.entries(*k) == self.inner@[i as int].1@);
                assert(old(self).entries(*k) == s[i as int].1@);
            }
            assert forall|k2: usize| k2 != *k implies self.entries(k2) == old(
                self,
            ).entries(k2) by {
                lemma_map_of_dom(self.inner@, k2);
                lemma_map_of_dom(s, k2);
            }
        }
    }

    /// Whether the map holds an entry at `(k, t)`.
    pub fn contains_entry(&self, k: &usize, t: TxnIndex) -> (r: bool)
        requires
            self.wf(),
        ensures
            r == (self.entry_at(*k, t) is Some),
    {
        match self.find(*k) {
            Some(i) => {
                let ve = &self.inner[i].1;
                match ve.read_entry(t) {
                    Some(_) => true,
                    None => false,
                }
            },
            None => {
                proof {
                    lemma_map_of_dom(self.entries(*k), t);
                }
                false
            },
        }
    }

    /// Drop the entry at `(k, txn_idx)`, if the map holds one.
    pub fn delete(&mut self, k: &usize, txn_idx: TxnIndex)
        requires
            old(self).wf(),
        ensures
            final(self).wf(),
            final(self).spec_mergeable() == old(self).spec_mergeable(),
            final(self).entry_at(*k, txn_idx) is None,
            forall|u: TxnIndex|
                u != txn_idx ==> final(self).entry_at(*k, u) == old(self).entry_at(*k, u),
            forall|k2: usize| k2 != *k ==> final(self).entries(k2) == old(self).entries(k2),
    {
        let ghost s = self.inner@;
        let i = match self.find(*k) {
            Some(i) => i,
            None => {
                proof {
                    lemma_map_of_dom(s, txn_idx);
                }
                return;
            },
        };
        let present = {
            let ve = &self.inner[i].1;
            match ve.read_entry(txn_idx) {
                Some(_) => true,
                None => false,
            }
        };
        if !present {
            return;
        }
        let ve = &mut self.inner[i].1;
        ve.remove(txn_idx);
        proof {
            lemma_map_of_update(s, i as int, self.inner@[i as int].1);
            assert(self.inner@ =~= s.update(i as int, (*k, self.inner@[i as int].1)));
            assert forall|p: int| 0 <= p < self.inner@.len() implies (
            #[trigger] self.inner@[p]).1.wf() by {
                if p != i {
                    assert(self.inner@[p] == s[p]);
                }
            }
            assert forall|u: TxnIndex| u != txn_idx implies self.entry_at(*k, u) == old(
                self,
            ).entry_at(*k, u) by {
                assert(self.inner@[i as int].1.spec_entry(u) == s[i as int].1.spec_entry(u));
                assert(self.entries(*k) == self.inner@[i as int].1@);
                assert(old(self).entries(*k) == s[i as int].1@);
            }
            assert forall|k2: usize| k2 != *k implies self.entries(k2) == old(
                self,
            ).entries(k2) by {
                lemma_map_of_dom(self.inner@, k2);
                lemma_map_of_dom(s, k2);
            }
        }
    }

    /// The versioned read at `k` below `txn_idx`, as the block-order fold
    /// over the entries the map holds.
    pub fn read(&self, k: &usize, txn_idx: TxnIndex) -> (r: Result<MVMapOutput, MVMapError>)
        requires
            self.wf(),
        ensures
            read_result_view(r) == spec_read(self.entries(*k), txn_idx, self.spec_mergeable()),
    {
        match self.find(*k) {
            Some(i) => {
                let ve = &self.inner[i].1;
                ve.read(txn_idx, self.mergeable)
            },
            None => Err(MVMapError::NotFound),
        }
    }

    /// Whether one of the first `n` pairs holds key `k` with entries.
    spec fn key_backed(s: Seq<(usize, VersionedEntries)>, n: int, k: usize) -> bool {
        exists|j: int| 0 <= j < n && (#[trigger] s[j]).0 == k && s[j].1@.len() > 0
    }

    /// The keys that currently hold at least one entry, each once, in the
    /// order the map first saw them.
    pub fn keys_with_entries(&self) -> (r: Vec<usize>)
        requires
            self.wf(),
        ensures
            forall|i: int, j: int| 0 <= i < j < r@.len() ==> r@[i] != r@[j],
            forall|k: usize| r@.contains(k) <==> self.entries(k).len() > 0,
    {
        let n = self.inner.len();
        let mut r: Vec<usize> = Vec::new();
        let mut i: usize = 0;
        while i < n
            invariant
                self.wf(),
                n == self.inner@.len(),
                i <= n,
                forall|p: int, q: int| 0 <= p < q < r@.len() ==> r@[p] != r@[q],
                forall|q: int|
                    0 <= q < r@.len() ==> Self::key_backed(self.inner@, i as int, #[trigger] r@[q]),
                forall|j: int|
                    0 <= j < i && (#[trigger] self.inner@[j]).1@.len() > 0 ==> r@.contains(
                        self.inner@[j].0,
                    ),
            decreases n - i,
        {
            if !self.inner[i].1.is_empty() {
                let k = self.inner[i].0;
                proof {
                    assert forall|q: int| 0 <= q < r@.len() implies r@[q] != k by {
                        let j = choose|j: int|
                            0 <= j < i && (#[trigger] self.inner@[j]).0 == r@[q]
                                && self.inner@[j].1@.len() > 0;
                    }
                }
                let ghost r_old = r@;
                r.push(k);
                proof {
                    assert(r@.drop_last() =~= r_old);
                    assert forall|q: int| 0 <= q < r@.len() implies Self::key_backed(
                        self.inner@,
                        i + 1,
                        #[trigger] r@[q],
                    ) by {
                        if q < r@.len() - 1 {
                            assert(r@[q] == r_old[q]);
                            assert(Self::key_backed(self.inner@, i as int, r_old[q]));
                            let j = choose|j: int|
                                0 <= j < i && (#[trigger] self.inner@[j]).0 == r_old[q]
                                    && self.inner@[j].1@.len() > 0;
                            assert(Self::key_backed(self.inner@, i + 1, r@[q]));
                        } else {
                            assert(r@[q] == k);
                            assert((#[trigger] self.inner@[i as int]).0 == k
                                && self.inner@[i as int].1@.len() > 0);
                        }
                    }
                    assert forall|j: int|
                        0 <= j < i + 1 && (#[trigger] self.inner@[j]).1@.len() > 0 implies r@
                        .contains(self.inner@[j].0) by {
                        if j < i {
                            assert(r_old.contains(self.inner@[j].0));
                            let q = choose|q: int|
                                0 <= q < r_old.len() && r_old[q] == self.inner@[j].0;
                            assert(r@[q] == self.inner@[j].0);
                        } else {
                            assert(r@.last() == self.inner@[j].0);
                        }
                    }
                }
            }
            i += 1;
        }
        proof {
            assert forall|k: usize| r@.contains(k) <==> self.entries(k).len() > 0 by {
                lemma_map_of_dom(self.inner@, k);
                lemma_has_key_index(self.inner@, k);
                if r@.contains(k) {
                    let q = choose|q: int| 0 <= q < r@.len() && r@[q] == k;
                    assert(Self::key_backed(self.inner@, n as int, r@[q]));
                    let j = choose|j: int|
                        0 <= j < n && (#[trigger] self.inner@[j]).0 == k
                            && self.inner@[j].1@.len() > 0;
                    lemma_map_of_index(self.inner@, j);
                } else {
                    if map_of(self.inner@).contains_key(k) {
                        let j = choose|j: int|
                            0 <= j < self.inner@.len() && (#[trigger] self.inner@[j]).0 == k;
                        lemma_map_of_index(self.inner@, j);
                        if self.inner@[j].1@.len() > 0 {
                            assert(r@.contains(k));
                        }
                    }
                }
            }
        }
        r
    }
}

/// Entries at or above the reading transaction do not change what it reads.
proof fn lemma_spec_read_take(s: Seq<(TxnIndex, Entry)>, t: TxnIndex, p: int)
    requires
        0 <= p <= s.len(),
        forall|j: int| p <= j < s.len() ==> (#[trigger] s[j]).0 >= t,
    ensures
        spec_read_merge(s, t, None) == spec_read_merge(s.take(p), t, None),
        spec_read_list(s, t, Seq::empty()) == spec_read_list(s.take(p), t, Seq::empty()),
    decreases s.len() - p,
{
    if p < s.len() {
        lemma_spec_read_take(s, t, p + 1);
        assert(s.take(p + 1).drop_last() =~= s.take(p));
        assert(s.take(p + 1).last() == s[p]);
    } else {
        assert(s.take(p) =~= s);
    }
}

} // verus!
