//! Block-level laws of the engine, stated and proved over the specification
//! views of its components.

use vstd::prelude::*;

use crate::mvmemory::mvmap::{Entry, EntryCell};
use crate::mvmemory::{key_in, MVMemory};
use crate::transfer::{spec_apply_writes, spec_sequential, spec_transfer_writes, spec_txn_output,
    TransferTransaction};
use crate::types::Version;

verus! {

/// At most one entry: the entries a key holds carry pairwise distinct
/// transaction indices, so the map holds at most one entry per
/// `(key, transaction)` slot at any instant.
pub proof fn lemma_at_most_one_entry(m: MVMemory, k: usize)
    requires
        m.wf(),
    ensures
        forall|p: int, q: int|
            0 <= p < q < m.entries(k).len() ==> (#[trigger] m.entries(k)[p]).0 != (
            #[trigger] m.entries(k)[q]).0,
{
    m.lemma_entries_sorted(k);
}

/// Incarnation monotonicity: the engine's driver maintains
/// `crate::executor::incarnation_inv` at every step, so while a transaction
/// is `Executing` an incarnation, every write entry its slot holds carries a
/// strictly lower incarnation; when that incarnation publishes, each write
/// it leaves strictly exceeds what the slot held. Successive entries at one
/// slot therefore carry strictly increasing incarnation numbers.
pub proof fn lemma_incarnation_monotonic(
    pre: MVMemory,
    post: MVMemory,
    s: crate::scheduler::Scheduler,
    version: Version,
    ws: Seq<(usize, usize)>,
    j: int,
)
    requires
        crate::executor::incarnation_inv(pre, s),
        version.0 < s.spec_block_size(),
        s.spec_status(version.0) == crate::scheduler::TransactionStatus::Executing(version.1),
        0 <= j < ws.len(),
        post.entry_at(ws[j].0, version.0) == Some(
            Entry { estimate: false, cell: EntryCell::Write(version.1, ws[j].1) },
        ),
    ensures
        match post.entry_at(ws[j].0, version.0) {
            Some(e2) => match e2.cell {
                EntryCell::Write(inc_new, _v2) => match pre.entry_at(ws[j].0, version.0) {
                    Some(e) => match e.cell {
                        EntryCell::Write(inc_old, _v) => inc_old < inc_new,
                        EntryCell::Delta(_d) => true,
                    },
                    None => true,
                },
                EntryCell::Delta(_d2) => false,
            },
            None => false,
        },
{
    assert(crate::executor::inc_entry_ok(
        pre.entry_at(ws[j].0, version.0),
        s.spec_status(version.0),
    ));
}

/// Snapshot idempotence: an empty block leaves empty multi-version memory,
/// the snapshot of empty memory holds no keys, and folding an empty
/// changeset into a state gives the state back. Serialization cannot
/// perturb this, because a value survives its byte image unchanged
/// (`lemma_value_roundtrip`).
pub proof fn lemma_snapshot_idempotent(
    m: MVMemory,
    st: Map<usize, usize>,
    cs: Seq<(usize, Option<usize>)>,
)
    requires
        forall|k: usize| #[trigger] m.entries(k).len() == 0,
        forall|k: usize|
            key_in(cs, cs.len() as int, k) <==> #[trigger] m.entries(k).len() > 0,
    ensures
        cs.len() == 0,
        crate::transfer::spec_apply_changeset(st, cs) == st,
{
    if cs.len() > 0 {
        let k0 = cs[0].0;
        assert(key_in(cs, cs.len() as int, k0));
        assert(m.entries(k0).len() == 0);
    }
}

/// Commutativity under non-conflict: two transfers that touch disjoint
/// account pairs produce the same pair of outputs in either block order.
/// Because the block entry points ensure their outputs equal
/// `spec_sequential`, this carries over to the engine's outputs directly.
pub proof fn lemma_commutative_non_conflict(
    t0: TransferTransaction,
    t1: TransferTransaction,
    st: Map<usize, usize>,
)
    requires
        st.contains_key(t0.from) && st.contains_key(t0.to),
        st.contains_key(t1.from) && st.contains_key(t1.to),
        t0.from != t1.from && t0.from != t1.to,
        t0.to != t1.from && t0.to != t1.to,
    ensures
        spec_sequential(seq![t0, t1], st) matches Some(os01) && spec_sequential(
            seq![t1, t0],
            st,
        ) matches Some(os10) && os01.len() == 2 && os10.len() == 2 && os01[0] == os10[1]
            && os01[1] == os10[0],
{
    let s01 = seq![t0, t1];
    let s10 = seq![t1, t0];
    let o0 = spec_txn_output(t0, st)->Some_0;
    let o1 = spec_txn_output(t1, st)->Some_0;
    lemma_transfer_writes_keys(t0, st[t0.from], st[t0.to]);
    lemma_transfer_writes_keys(t1, st[t1.from], st[t1.to]);
    let st0 = spec_apply_writes(st, o0);
    let st1 = spec_apply_writes(st, o1);
    lemma_apply_writes_frame(st, o0, t1.from);
    lemma_apply_writes_frame(st, o0, t1.to);
    lemma_apply_writes_frame(st, o1, t0.from);
    lemma_apply_writes_frame(st, o1, t0.to);
    assert(spec_txn_output(t1, st0) == spec_txn_output(t1, st));
    assert(spec_txn_output(t0, st1) == spec_txn_output(t0, st));
    assert(s01.first() == t0 && s01.drop_first() =~= seq![t1]);
    assert(s10.first() == t1 && s10.drop_first() =~= seq![t0]);
    assert(seq![t1].first() == t1 && seq![t1].drop_first() =~= Seq::<TransferTransaction>::empty());
    assert(seq![t0].first() == t0 && seq![t0].drop_first() =~= Seq::<TransferTransaction>::empty());
    assert(spec_sequential(Seq::<TransferTransaction>::empty(), spec_apply_writes(st0, o1))
        == Some(Seq::<Seq<(usize, usize)>>::empty()));
    assert(spec_sequential(seq![t1], st0) == Some(seq![o1] + Seq::<Seq<(usize, usize)>>::empty()));
    assert(spec_sequential(s01, st) == Some(
        seq![o0] + (seq![o1] + Seq::<Seq<(usize, usize)>>::empty()),
    ));
    assert(spec_sequential(Seq::<TransferTransaction>::empty(), spec_apply_writes(st1, o0))
        == Some(Seq::<Seq<(usize, usize)>>::empty()));
    assert(spec_sequential(seq![t0], st1) == Some(seq![o0] + Seq::<Seq<(usize, usize)>>::empty()));
    assert(spec_sequential(s10, st) == Some(
        seq![o1] + (seq![o0] + Seq::<Seq<(usize, usize)>>::empty()),
    ));
    let os01 = spec_sequential(s01, st)->Some_0;
    let os10 = spec_sequential(s10, st)->Some_0;
    assert(os01[0] == o0 && os01[1] == o1);
    assert(os10[0] == o1 && os10[1] == o0);
}

/// The keys a transfer writes are among its two accounts.
proof fn lemma_transfer_writes_keys(t: TransferTransaction, b_from: usize, b_to: usize)
    ensures
        forall|p: int|
            0 <= p < spec_transfer_writes(t, b_from, b_to).len() ==> (
            #[trigger] spec_transfer_writes(t, b_from, b_to)[p]).0 == t.from
                || spec_transfer_writes(t, b_from, b_to)[p].0 == t.to,
{
}

/// Folding a write set into a state leaves every key outside it untouched.
proof fn lemma_apply_writes_frame(st: Map<usize, usize>, out: Seq<(usize, usize)>, k: usize)
    requires
        forall|p: int| 0 <= p < out.len() ==> (#[trigger] out[p]).0 != k,
    ensures
        spec_apply_writes(st, out).contains_key(k) == st.contains_key(k),
        st.contains_key(k) ==> spec_apply_writes(st, out)[k] == st[k],
    decreases out.len(),
{
    if out.len() > 0 {
        assert(out[0].0 != k);
        assert forall|p: int| 0 <= p < out.drop_first().len() implies (
        #[trigger] out.drop_first()[p]).0 != k by {
            assert(out.drop_first()[p] == out[p + 1]);
        }
        lemma_apply_writes_frame(st.insert(out.first().0, out.first().1), out.drop_first(), k);
    }
}

} // verus!
