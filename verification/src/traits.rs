//! Client-facing vocabulary of the engine: values, deltas, outputs.
//!
//! Keys and values are plain machine words. A delta is a commutative update
//! that a transaction may record instead of a full write; deltas add an
//! amount with saturation at `usize::MAX`, so that folding them is
//! associative and independent of the schedule.

use vstd::prelude::*;

use crate::types::TxnIndex;

verus! {

/// A commutative update stored in the multi-version map in place of a
/// materialized write: add `amount`, saturating at `usize::MAX`.
#[derive(Clone, Copy, PartialEq, Eq, Structural, Debug)]
pub struct DeltaOp {
    /// Amount added to the value the delta lands on.
    pub amount: usize,
}

/// Result of applying a delta to a value: saturating addition.
pub open spec fn spec_apply_delta(v: usize, d: DeltaOp) -> usize {
    if v + d.amount <= usize::MAX {
        (v + d.amount) as usize
    } else {
        usize::MAX
    }
}

/// Result of merging two deltas into one: their saturating sum.
pub open spec fn spec_merge_deltas(left: DeltaOp, right: DeltaOp) -> DeltaOp {
    DeltaOp {
        amount: if left.amount + right.amount <= usize::MAX {
            (left.amount + right.amount) as usize
        } else {
            usize::MAX
        },
    }
}

/// Folding a merged delta equals folding its two halves one after the other,
/// so a read that combines deltas on the way down gives the same value as
/// applying them one by one in block order.
pub proof fn lemma_delta_associative(v: usize, d1: DeltaOp, d2: DeltaOp)
    ensures
        spec_apply_delta(v, spec_merge_deltas(d1, d2)) == spec_apply_delta(
            spec_apply_delta(v, d1),
            d2,
        ),
{
}

/// Merging deltas is commutative: the saturating sum ignores order.
pub proof fn lemma_delta_commutative(d1: DeltaOp, d2: DeltaOp)
    ensures
        spec_merge_deltas(d1, d2) == spec_merge_deltas(d2, d1),
{
}

/// Values that support commutative delta updates.
pub trait Mergeable: Sized {
    /// The numeric content that deltas act on.
    spec fn as_amount(&self) -> usize;

    /// Whether reads may fold several deltas into a single one on the way
    /// down, instead of keeping the list of deltas.
    spec fn spec_partial_mergeable() -> bool;

    /// Whether reads may fold several deltas into a single one on the way
    /// down, instead of keeping the list of deltas.
    fn partial_mergeable() -> (r: bool)
        ensures
            r == Self::spec_partial_mergeable(),
    ;

    /// Merge two deltas into one.
    fn partial_merge(left: &DeltaOp, right: &DeltaOp) -> (r: DeltaOp)
        ensures
            r == spec_merge_deltas(*left, *right),
    ;

    /// Apply a delta to this value, producing the updated value.
    fn apply_delta(&self, delta: &DeltaOp) -> (r: Self)
        ensures
            r.as_amount() == spec_apply_delta(self.as_amount(), *delta),
    ;
}

impl Mergeable for usize {
    open spec fn as_amount(&self) -> usize {
        *self
    }

    open spec fn spec_partial_mergeable() -> bool {
        true
    }

    fn partial_mergeable() -> (r: bool) {
        true
    }

    fn partial_merge(left: &DeltaOp, right: &DeltaOp) -> (r: DeltaOp) {
        if left.amount <= usize::MAX - right.amount {
            DeltaOp { amount: left.amount + right.amount }
        } else {
            DeltaOp { amount: usize::MAX }
        }
    }

    fn apply_delta(&self, delta: &DeltaOp) -> (r: usize) {
        if *self <= usize::MAX - delta.amount {
            *self + delta.amount
        } else {
            usize::MAX
        }
    }
}

/// Values that can cross the block boundary as bytes, so that a final
/// snapshot can materialize storage-shape values.
pub trait ValueBytes: Sized {
    /// The byte image of this value; `None` encodes a deletion tombstone.
    spec fn spec_serialized(&self) -> Option<Seq<u8>>;

    /// Which byte sequences decode to a value.
    spec fn deserializable(bytes: Seq<u8>) -> bool;

    /// Serialize `self`; `None` indicates deletion.
    fn serialize(&self) -> (r: Option<Vec<u8>>)
        ensures
            match r {
                Some(b) => self.spec_serialized() == Some(b@) && Self::deserializable(b@),
                None => self.spec_serialized() is None,
            },
    ;

    /// Deserialize bytes produced by `serialize`.
    fn deserialize(bytes: &[u8]) -> (r: Self)
        requires
            Self::deserializable(bytes@),
        ensures
            r.spec_serialized() == Some(bytes@),
    ;
}

impl ValueBytes for usize {
    open spec fn spec_serialized(&self) -> Option<Seq<u8>> {
        Some(vstd::bytes::spec_u64_to_le_bytes(*self as u64))
    }

    open spec fn deserializable(bytes: Seq<u8>) -> bool {
        bytes.len() == 8 && vstd::bytes::spec_u64_from_le_bytes(bytes) <= usize::MAX as u64
    }

    fn serialize(&self) -> (r: Option<Vec<u8>>) {
        proof {
            vstd::bytes::lemma_auto_spec_u64_to_from_le_bytes();
        }
        Some(vstd::bytes::u64_to_le_bytes(*self as u64))
    }

    fn deserialize(bytes: &[u8]) -> (r: usize) {
        proof {
            vstd::bytes::lemma_auto_spec_u64_to_from_le_bytes();
        }
        vstd::bytes::u64_from_le_bytes(bytes) as usize
    }
}

/// A value survives the trip through its byte image unchanged.
pub proof fn lemma_value_roundtrip(v: usize)
    ensures
        v.spec_serialized() matches Some(b) && usize::deserializable(b),
        forall|w: usize| w.spec_serialized() == v.spec_serialized() ==> w == v,
{
    vstd::bytes::lemma_auto_spec_u64_to_from_le_bytes();
    assert forall|w: usize| w.spec_serialized() == v.spec_serialized() implies w == v by {
        assert(vstd::bytes::spec_u64_from_le_bytes(vstd::bytes::spec_u64_to_le_bytes(v as u64))
            == v as u64);
        assert(vstd::bytes::spec_u64_from_le_bytes(vstd::bytes::spec_u64_to_le_bytes(w as u64))
            == w as u64);
    }
}

/// What a transaction execution hands back: a write set of materialized
/// values and a delta set of commutative updates, disjoint in keys.
pub trait TransactionOutput: Sized {
    /// The write set, as key-value pairs in the order the output lists them.
    spec fn spec_write_set(&self) -> Seq<(usize, usize)>;

    /// The delta set, as key-delta pairs in the order the output lists them.
    spec fn spec_delta_set(&self) -> Seq<(usize, DeltaOp)>;

    /// Get the write set of the output, which does not overlap the delta set.
    fn get_write_set(&self) -> (r: Vec<(usize, usize)>)
        ensures
            r@ == self.spec_write_set(),
    ;

    /// Get the delta set of the output, which does not overlap the write set.
    fn get_delta_set(&self) -> (r: Vec<(usize, DeltaOp)>)
        ensures
            r@ == self.spec_delta_set(),
    ;
}

/// The keys of an output: write-set keys followed by delta-set keys.
pub open spec fn output_keys<O: TransactionOutput>(o: O) -> Seq<usize> {
    o.spec_write_set().map_values(|p: (usize, usize)| p.0) + o.spec_delta_set().map_values(
        |p: (usize, DeltaOp)| p.0,
    )
}

/// A well-formed output names every key at most once, across both sets.
pub open spec fn output_wf<O: TransactionOutput>(o: O) -> bool {
    forall|i: int, j: int|
        0 <= i < j < output_keys(o).len() ==> output_keys(o)[i] != output_keys(o)[j]
}

/// The base state consulted when a read finds nothing in the multi-version
/// map: a total keyed view over the keys it holds.
pub trait Storage {
    /// Which keys the base state can answer for.
    spec fn spec_readable(&self, key: usize) -> bool;

    /// The value the base state holds at a readable key.
    spec fn spec_read(&self, key: usize) -> usize;

    /// Read a base value.
    fn read(&self, key: &usize) -> (r: usize)
        requires
            self.spec_readable(*key),
        ensures
            r == self.spec_read(*key),
    ;
}

/// Errors a transaction may surface while executing against the engine:
/// the fatal miss of a base value, or a read blocked on a lower transaction
/// that is about to re-execute.
pub trait IsReadError {
    /// Whether this error is a blocked read rather than a fatal failure.
    spec fn spec_is_read_error(&self) -> bool;

    /// The transaction a blocked read waits for, if any.
    spec fn spec_blocking_txn_idx(&self) -> Option<TxnIndex>;

    /// Whether this error is a blocked read.
    fn is_read_error(&self) -> (r: bool)
        ensures
            r == self.spec_is_read_error(),
    ;

    /// The blocking transaction index of a blocked read.
    fn get_blocking_txn_idx(&self) -> (r: Option<TxnIndex>)
        ensures
            r == self.spec_blocking_txn_idx(),
    ;
}

} // verus!
