//! The executor loop: simulated workers pull tasks from the scheduler, run
//! the client machine against a fresh multi-version view, publish outputs,
//! validate captured read sets and trigger re-executions, until the
//! scheduler declares the block done.
//!
//! The workers are driven deterministically, round robin, one task phase at
//! a time; an execution is split into a read phase (the machine runs against
//! the map as it stands) and a publish phase (its output lands in the map),
//! so speculative executions interleave the way parallel workers do.

use vstd::prelude::*;

use crate::mvmemory::mvmap::MVMapError;
use crate::mvmemory::{key_in, LastTxnIO, MVMemory, MVMemoryView, ReadDescriptor};
use crate::scheduler::{Scheduler, SchedulerTask};
use crate::traits::{output_keys, output_wf, TransactionOutput};
use crate::types::{TxnIndex, Version};

verus! {

/// The engine that runs a transaction's code against a view: the one
/// polymorphism point of the executor. An implementation reports a blocked
/// read as `ReadError` with the blocking index it got from the view; any
/// other error is fatal to the block.
pub trait VM<T>: Sized {
    /// What one execution hands back.
    type Output: TransactionOutput;

    /// What the machine is built from, such as the base state view.
    type Parameter;

    /// Which parameters a machine can be built from.
    spec fn param_wf(parameter: &Self::Parameter) -> bool;

    /// The machine's own validity, established at construction.
    spec fn wf(&self) -> bool;

    /// Build one machine instance.
    fn new(parameter: &Self::Parameter) -> (r: Self)
        requires
            Self::param_wf(parameter),
        ensures
            r.wf(),
    ;

    /// Execute a single transaction against the given view. Reads must go
    /// through the view, so that they are captured for validation.
    fn execute_transaction(&self, txn: &T, view: &mut MVMemoryView) -> (r: Result<
        Self::Output,
        MVMapError,
    >)
        requires
            self.wf(),
            old(view).spec_mvmemory().wf(),
        ensures
            final(view).spec_txn_idx() == old(view).spec_txn_idx(),
            final(view).spec_mvmemory() == old(view).spec_mvmemory(),
            r matches Ok(o) ==> output_wf(o),
            match r {
                Err(MVMapError::ReadError(b)) => b < old(view).spec_txn_idx(),
                _ => true,
            },
    ;
}

/// What one simulated worker holds between steps.
pub(crate) enum WorkerState<O> {
    /// A task from the scheduler (or none).
    Task(SchedulerTask),
    /// An execution whose machine run succeeded; its captured reads and
    /// output await publication.
    Ran(Version, Vec<ReadDescriptor>, O),
    /// The worker observed `Done` and stopped.
    Halted,
}

/// A worker's held indices stay inside the block, and a finished run holds
/// a well-formed output.
pub(crate) open spec fn worker_state_wf<O: TransactionOutput>(st: WorkerState<O>, n: usize) -> bool {
    match st {
        WorkerState::Task(SchedulerTask::Execution(v)) => v.0 < n,
        WorkerState::Task(SchedulerTask::Validation(v)) => v.0 < n,
        WorkerState::Task(SchedulerTask::NoTask) => true,
        WorkerState::Task(SchedulerTask::Done) => true,
        WorkerState::Ran(v, _reads, o) => v.0 < n && output_wf(o),
        WorkerState::Halted => true,
    }
}

/// Whether every captured descriptor still matches a re-read of the map at
/// the transaction's index.
pub open spec fn read_set_valid(m: MVMemory, txn_idx: TxnIndex, rs: Seq<ReadDescriptor>) -> bool {
    forall|j: int|
        0 <= j < rs.len() ==> crate::mvmemory::spec_validate_read(
            #[trigger] rs[j],
            crate::mvmemory::mvmap::spec_read(
                m.entries(rs[j].key),
                txn_idx,
                m.spec_mergeable(),
            ),
        )
}

/// The multi-version slot of one transaction holds exactly one recorded
/// output: each written key carries the output's value (its estimate flag
/// free, since an abort may have flagged it), each delta key its delta, and
/// no other key holds an entry for this transaction.
pub open spec fn slot_matches_output<O: TransactionOutput>(m: MVMemory, i: TxnIndex, o: O) -> bool {
    &&& forall|j: int|
        0 <= j < o.spec_write_set().len() ==> (match m.entry_at(
            (#[trigger] o.spec_write_set()[j]).0,
            i,
        ) {
            Some(e) => match e.cell {
                crate::mvmemory::mvmap::EntryCell::Write(_inc, v) => v
                    == o.spec_write_set()[j].1,
                crate::mvmemory::mvmap::EntryCell::Delta(_d) => false,
            },
            None => false,
        })
    &&& forall|j: int|
        0 <= j < o.spec_delta_set().len() ==> (match m.entry_at(
            (#[trigger] o.spec_delta_set()[j]).0,
            i,
        ) {
            Some(e) => e.cell == crate::mvmemory::mvmap::EntryCell::Delta(
                o.spec_delta_set()[j].1,
            ),
            None => false,
        })
    &&& forall|k: usize|
        !key_in(o.spec_write_set(), o.spec_write_set().len() as int, k) && !key_in(
            o.spec_delta_set(),
            o.spec_delta_set().len() as int,
            k,
        ) ==> #[trigger] m.entry_at(k, i) is None
}

/// The engine's publication coherence: every transaction's multi-version
/// slot holds exactly its last recorded output, and a transaction that
/// never recorded one holds no entries at all.
pub open spec fn io_mem_coherent<O: TransactionOutput>(
    io: LastTxnIO<O>,
    m: MVMemory,
    n: usize,
) -> bool {
    forall|i: TxnIndex|
        i < n ==> (match #[trigger] io.spec_output(i) {
            Some(o) => slot_matches_output(m, i, o),
            None => forall|k: usize| #[trigger] m.entry_at(k, i) is None,
        })
}

/// A recorded output, if any, names each key at most once.
pub open spec fn output_wf_opt<O: TransactionOutput>(o: Option<O>) -> bool {
    match o {
        Some(o2) => crate::traits::output_wf(o2),
        None => true,
    }
}

/// A slot that matches an output keeps matching it when its entries are
/// unchanged.
proof fn lemma_slot_frame<O: TransactionOutput>(m0: MVMemory, m1: MVMemory, i: TxnIndex, o: O)
    requires
        slot_matches_output(m0, i, o),
        forall|k: usize| #[trigger] m1.entry_at(k, i) == m0.entry_at(k, i),
    ensures
        slot_matches_output(m1, i, o),
{
    assert forall|j: int|
        0 <= j < o.spec_write_set().len() implies (match m1.entry_at(
        (#[trigger] o.spec_write_set()[j]).0,
        i,
    ) {
        Some(e) => match e.cell {
            crate::mvmemory::mvmap::EntryCell::Write(_inc, v) => v == o.spec_write_set()[j].1,
            crate::mvmemory::mvmap::EntryCell::Delta(_d) => false,
        },
        None => false,
    }) by {
        assert(m1.entry_at(o.spec_write_set()[j].0, i) == m0.entry_at(
            o.spec_write_set()[j].0,
            i,
        ));
    }
    assert forall|j: int|
        0 <= j < o.spec_delta_set().len() implies (match m1.entry_at(
        (#[trigger] o.spec_delta_set()[j]).0,
        i,
    ) {
        Some(e) => e.cell == crate::mvmemory::mvmap::EntryCell::Delta(o.spec_delta_set()[j].1),
        None => false,
    }) by {
        assert(m1.entry_at(o.spec_delta_set()[j].0, i) == m0.entry_at(
            o.spec_delta_set()[j].0,
            i,
        ));
    }
    assert forall|k: usize|
        !key_in(o.spec_write_set(), o.spec_write_set().len() as int, k) && !key_in(
            o.spec_delta_set(),
            o.spec_delta_set().len() as int,
            k,
        ) implies #[trigger] m1.entry_at(k, i) is None by {
        assert(m1.entry_at(k, i) == m0.entry_at(k, i));
    }
}

/// Whether a worker state holds a task guard: it does exactly while it
/// carries a dispatched task or an unpublished run.
pub(crate) open spec fn holds_guard<O>(st: WorkerState<O>) -> bool {
    match st {
        WorkerState::Task(SchedulerTask::Execution(_v)) => true,
        WorkerState::Task(SchedulerTask::Validation(_v)) => true,
        WorkerState::Ran(_v, _reads, _o) => true,
        WorkerState::Task(SchedulerTask::NoTask) => false,
        WorkerState::Task(SchedulerTask::Done) => false,
        WorkerState::Halted => false,
    }
}

/// Whether a worker has observed the block's completion.
pub(crate) open spec fn observed_done<O>(st: WorkerState<O>) -> bool {
    match st {
        WorkerState::Task(SchedulerTask::Done) => true,
        WorkerState::Halted => true,
        _ => false,
    }
}

/// How many workers of the pool hold a task guard.
pub(crate) open spec fn guard_count<O>(s: Seq<WorkerState<O>>) -> int
    decreases s.len(),
{
    if s.len() == 0 {
        0
    } else {
        guard_count(s.drop_last()) + if holds_guard(s.last()) {
            1int
        } else {
            0int
        }
    }
}

/// The guard count lies between zero and the pool size, and strictly below
/// it wherever one worker holds no guard.
proof fn lemma_guard_count_bounds<O>(s: Seq<WorkerState<O>>, w: int)
    requires
        0 <= w < s.len(),
    ensures
        0 <= guard_count(s) <= s.len(),
        !holds_guard(s[w]) ==> guard_count(s) < s.len(),
        holds_guard(s[w]) ==> guard_count(s) >= 1,
    decreases s.len(),
{
    if s.len() == 1 {
        assert(s.drop_last().len() == 0);
        assert(guard_count(s.drop_last()) == 0);
    } else if w < s.len() - 1 {
        lemma_guard_count_bounds(s.drop_last(), w);
        assert(s.drop_last()[w] == s[w]);
    } else {
        lemma_guard_count_bounds(s.drop_last(), 0);
    }
}

/// Replacing one worker's state moves the guard count by the difference of
/// the two states' guards.
proof fn lemma_guard_count_update<O>(s: Seq<WorkerState<O>>, w: int, x: WorkerState<O>)
    requires
        0 <= w < s.len(),
    ensures
        guard_count(s.update(w, x)) == guard_count(s) - (if holds_guard(s[w]) {
            1int
        } else {
            0int
        }) + (if holds_guard(x) {
            1int
        } else {
            0int
        }),
    decreases s.len(),
{
    let t = s.update(w, x);
    if w == s.len() - 1 {
        assert(t.drop_last() =~= s.drop_last());
        assert(t.last() == x);
    } else {
        assert(t.drop_last() =~= s.drop_last().update(w, x));
        assert(t.last() == s.last());
        assert(s.drop_last()[w] == s[w]);
        lemma_guard_count_update(s.drop_last(), w, x);
    }
}

/// A pool of workers none of which holds a guard counts zero.
proof fn lemma_guard_count_zero<O>(s: Seq<WorkerState<O>>)
    requires
        forall|q: int| 0 <= q < s.len() ==> !holds_guard(#[trigger] s[q]),
    ensures
        guard_count(s) == 0,
    decreases s.len(),
{
    if s.len() > 0 {
        assert forall|q: int| 0 <= q < s.drop_last().len() implies !holds_guard(
            #[trigger] s.drop_last()[q],
        ) by {
            assert(s.drop_last()[q] == s[q]);
        }
        lemma_guard_count_zero(s.drop_last());
        assert(!holds_guard(s[s.len() - 1]));
    }
}

/// Whether one entry's incarnation respects its transaction's status: a
/// write left by an earlier incarnation lies strictly below an incarnation
/// that has not published yet, and never above one that has.
pub open spec fn inc_entry_ok(
    e: Option<crate::mvmemory::mvmap::Entry>,
    st: crate::scheduler::TransactionStatus,
) -> bool {
    match e {
        Some(en) => match en.cell {
            crate::mvmemory::mvmap::EntryCell::Write(inc, _v) => match st {
                crate::scheduler::TransactionStatus::ReadyToExecute(j) => inc < j,
                crate::scheduler::TransactionStatus::Executing(j) => inc < j,
                crate::scheduler::TransactionStatus::Suspended(j) => inc < j,
                crate::scheduler::TransactionStatus::Executed(j) => inc <= j,
                crate::scheduler::TransactionStatus::Aborting(j) => inc <= j,
            },
            crate::mvmemory::mvmap::EntryCell::Delta(_d) => true,
        },
        None => true,
    }
}

/// Incarnation monotonicity, as the engine's running invariant: every write
/// entry the map holds for a transaction carries an incarnation bounded by
/// that transaction's current status — strictly below it until the status
/// incarnation publishes. Together with the publication contract (a fresh
/// incarnation's writes strictly exceed what the slot held), successive
/// entries at one slot carry strictly increasing incarnation numbers.
pub open spec fn incarnation_inv(m: MVMemory, s: Scheduler) -> bool {
    forall|k: usize, i: TxnIndex|
        i < s.spec_block_size() ==> inc_entry_ok(#[trigger] m.entry_at(k, i), s.spec_status(i))
}

/// A well-formed output's write set, delta set, and their union all carry
/// pairwise distinct keys.
proof fn lemma_output_wf_parts<O: TransactionOutput>(
    o: O,
    ws: Seq<(usize, usize)>,
    ds: Seq<(usize, crate::traits::DeltaOp)>,
)
    requires
        output_wf(o),
        ws == o.spec_write_set(),
        ds == o.spec_delta_set(),
    ensures
        forall|p: int, q: int| 0 <= p < q < ws.len() ==> (#[trigger] ws[p]).0 != (#[trigger] ws[q]).0,
        forall|p: int, q: int| 0 <= p < q < ds.len() ==> (#[trigger] ds[p]).0 != (#[trigger] ds[q]).0,
        forall|p: int, q: int|
            0 <= p < ws.len() && 0 <= q < ds.len() ==> (#[trigger] ws[p]).0 != (#[trigger] ds[q]).0,
{
    let keys = output_keys(o);
    assert forall|p: int, q: int|
        0 <= p < q < ws.len() implies (#[trigger] ws[p]).0 != (#[trigger] ws[q]).0 by {
        assert(keys[p] == ws[p].0 && keys[q] == ws[q].0);
    }
    assert forall|p: int, q: int|
        0 <= p < q < ds.len() implies (#[trigger] ds[p]).0 != (#[trigger] ds[q]).0 by {
        assert(keys[ws.len() + p] == ds[p].0 && keys[ws.len() + q] == ds[q].0);
    }
    assert forall|p: int, q: int|
        0 <= p < ws.len() && 0 <= q < ds.len() implies (#[trigger] ws[p]).0 != (
    #[trigger] ds[q]).0 by {
        assert(keys[p] == ws[p].0 && keys[ws.len() + q] == ds[q].0);
    }
}

/// Advance one worker by one phase. `Err` reports a fatal machine failure.
fn step_worker<T, V: VM<T>>(
    vm: &V,
    txns: &Vec<T>,
    mvmemory: &mut MVMemory,
    scheduler: &mut Scheduler,
    last_txn_io: &mut LastTxnIO<V::Output>,
    st: WorkerState<V::Output>,
) -> (r: Result<WorkerState<V::Output>, MVMapError>)
    requires
        vm.wf(),
        old(mvmemory).wf(),
        old(scheduler).wf(),
        old(last_txn_io).wf(),
        old(mvmemory).spec_block_size() == txns@.len(),
        old(scheduler).spec_block_size() == txns@.len(),
        old(last_txn_io).spec_len() == txns@.len(),
        worker_state_wf(st, txns@.len() as usize),
        incarnation_inv(*old(mvmemory), *old(scheduler)),
        io_mem_coherent(*old(last_txn_io), *old(mvmemory), txns@.len() as usize),
        observed_done(st) ==> old(scheduler).spec_done(),
    ensures
        final(mvmemory).wf(),
        final(scheduler).wf(),
        final(last_txn_io).wf(),
        final(mvmemory).spec_block_size() == txns@.len(),
        final(scheduler).spec_block_size() == txns@.len(),
        final(last_txn_io).spec_len() == txns@.len(),
        r matches Ok(st2) ==> worker_state_wf(st2, txns@.len() as usize),
        incarnation_inv(*final(mvmemory), *final(scheduler)),
        io_mem_coherent(*final(last_txn_io), *final(mvmemory), txns@.len() as usize),
        old(scheduler).spec_done() ==> final(scheduler).spec_done(),
        r matches Ok(st2) ==> (observed_done(st2) ==> final(scheduler).spec_done()),
        r matches Ok(st2) ==> final(scheduler).spec_num_active_tasks() == (
        if holds_guard(st2) == holds_guard(st) {
            old(scheduler).spec_num_active_tasks()
        } else if holds_guard(st2) {
            crate::sync::wrap_inc(old(scheduler).spec_num_active_tasks())
        } else {
            crate::sync::wrap_dec(old(scheduler).spec_num_active_tasks())
        }),
        match st {
            WorkerState::Task(SchedulerTask::Validation(v)) => match old(last_txn_io).spec_input(
                v.0,
            ) {
                Some(rs) => !read_set_valid(*old(mvmemory), v.0, rs) && old(
                    scheduler,
                ).spec_status(v.0) == crate::scheduler::TransactionStatus::Executed(v.1)
                    ==> final(scheduler).spec_status(v.0)
                    != crate::scheduler::TransactionStatus::Executed(v.1) && (match old(
                    last_txn_io,
                ).spec_output(v.0) {
                    Some(o) => forall|j: int|
                        0 <= j < output_keys(o).len() ==> (match final(mvmemory).entry_at(
                            #[trigger] output_keys(o)[j],
                            v.0,
                        ) {
                            Some(e) => e.estimate,
                            None => false,
                        }),
                    None => true,
                }),
                None => true,
            },
            WorkerState::Ran(v, reads, o) => old(scheduler).spec_status(v.0)
                == crate::scheduler::TransactionStatus::Executing(v.1) ==> {
                &&& final(last_txn_io).spec_input(v.0) == Some(reads@)
                &&& final(last_txn_io).spec_output(v.0) == Some(o)
                &&& slot_matches_output(*final(mvmemory), v.0, o)
            },
            _ => true,
        },
{
    let ghost m0 = *mvmemory;
    let ghost s0 = *scheduler;
    match st {
        WorkerState::Task(SchedulerTask::NoTask) => {
            let t = scheduler.next_task();
            proof {
                assert forall|k: usize, i: TxnIndex| i < scheduler.spec_block_size() implies
                    inc_entry_ok(#[trigger] mvmemory.entry_at(k, i), scheduler.spec_status(i)) by {
                    assert(inc_entry_ok(m0.entry_at(k, i), s0.spec_status(i)));
                }
            }
            Ok(WorkerState::Task(t))
        },
        WorkerState::Task(SchedulerTask::Done) => Ok(WorkerState::Halted),
        WorkerState::Halted => Ok(WorkerState::Halted),
        WorkerState::Task(SchedulerTask::Execution(version)) => {
            let (txn_idx, _incarnation) = version;
            let txn = &txns[txn_idx];
            let mut view = MVMemoryView::new(txn_idx, mvmemory);
            match vm.execute_transaction(txn, &mut view) {
                Ok(output) => {
                    let reads = view.take_read_set();
                    Ok(WorkerState::Ran(version, reads, output))
                },
                Err(MVMapError::ReadError(blocking_txn_idx)) => {
                    let suspended = scheduler.wait_for_dependency(txn_idx, blocking_txn_idx);
                    proof {
                        assert forall|k: usize, i: TxnIndex| i < scheduler.spec_block_size()
                            implies inc_entry_ok(
                            #[trigger] mvmemory.entry_at(k, i),
                            scheduler.spec_status(i),
                        ) by {
                            assert(inc_entry_ok(m0.entry_at(k, i), s0.spec_status(i)));
                        }
                    }
                    if suspended {
                        Ok(WorkerState::Task(SchedulerTask::NoTask))
                    } else {
                        Ok(WorkerState::Task(SchedulerTask::Execution(version)))
                    }
                },
                Err(MVMapError::NotFound) => Err(MVMapError::NotFound),
            }
        },
        WorkerState::Ran(version, reads, output) => {
            let (txn_idx, incarnation) = version;
            if !scheduler.executing_incarnation(txn_idx, incarnation) {
                // the status moved on since this run was dispatched; drop
                // the stale output and hand the guard back
                let t = scheduler.finish_execution(txn_idx, incarnation, false);
                proof {
                    assert forall|k: usize, i: TxnIndex| i < scheduler.spec_block_size() implies
                        inc_entry_ok(
                        #[trigger] mvmemory.entry_at(k, i),
                        scheduler.spec_status(i),
                    ) by {
                        assert(inc_entry_ok(m0.entry_at(k, i), s0.spec_status(i)));
                    }
                }
                return Ok(WorkerState::Task(t));
            }
            let last_modified = last_txn_io.last_modified_keys(txn_idx);
            let write_set = output.get_write_set();
            let delta_set = output.get_delta_set();
            proof {
                lemma_output_wf_parts(output, write_set@, delta_set@);
                assert forall|k: usize|
                    #![trigger mvmemory.entry_at(k, version.0)]
                    (match mvmemory.entry_at(k, version.0) {
                        Some(e) => match e.cell {
                            crate::mvmemory::mvmap::EntryCell::Write(inc, _v) => inc < version.1,
                            crate::mvmemory::mvmap::EntryCell::Delta(_d) => true,
                        },
                        None => true,
                    }) by {
                    assert(inc_entry_ok(m0.entry_at(k, version.0), s0.spec_status(version.0)));
                }
            }
            let ghost io0 = *last_txn_io;
            let ghost o_g = output;
            let wrote_new = mvmemory.apply(version, &last_modified, &write_set, &delta_set);
            let ghost m1 = *mvmemory;
            last_txn_io.record(txn_idx, reads, output);
            let t = scheduler.finish_execution(txn_idx, incarnation, wrote_new);
            proof {
                assert(write_set@ == o_g.spec_write_set());
                assert(delta_set@ == o_g.spec_delta_set());
                assert(slot_matches_output(*mvmemory, txn_idx, o_g)) by {
                    assert forall|j: int|
                        0 <= j < o_g.spec_write_set().len() implies (match mvmemory.entry_at(
                        (#[trigger] o_g.spec_write_set()[j]).0,
                        txn_idx,
                    ) {
                        Some(e) => match e.cell {
                            crate::mvmemory::mvmap::EntryCell::Write(_inc, v) => v
                                == o_g.spec_write_set()[j].1,
                            crate::mvmemory::mvmap::EntryCell::Delta(_d) => false,
                        },
                        None => false,
                    }) by {
                        assert(m1.entry_at(write_set@[j].0, txn_idx) == Some(
                            crate::mvmemory::mvmap::Entry {
                                estimate: false,
                                cell: crate::mvmemory::mvmap::EntryCell::Write(
                                    version.1,
                                    write_set@[j].1,
                                ),
                            },
                        ));
                        assert(mvmemory.entry_at(write_set@[j].0, txn_idx) == m1.entry_at(
                            write_set@[j].0,
                            txn_idx,
                        ));
                    }
                    assert forall|j: int|
                        0 <= j < o_g.spec_delta_set().len() implies (match mvmemory.entry_at(
                        (#[trigger] o_g.spec_delta_set()[j]).0,
                        txn_idx,
                    ) {
                        Some(e) => e.cell == crate::mvmemory::mvmap::EntryCell::Delta(
                            o_g.spec_delta_set()[j].1,
                        ),
                        None => false,
                    }) by {
                        assert(m1.entry_at(delta_set@[j].0, txn_idx) == Some(
                            crate::mvmemory::mvmap::Entry {
                                estimate: false,
                                cell: crate::mvmemory::mvmap::EntryCell::Delta(delta_set@[j].1),
                            },
                        ));
                        assert(mvmemory.entry_at(delta_set@[j].0, txn_idx) == m1.entry_at(
                            delta_set@[j].0,
                            txn_idx,
                        ));
                    }
                    assert forall|k: usize|
                        !key_in(o_g.spec_write_set(), o_g.spec_write_set().len() as int, k)
                            && !key_in(
                            o_g.spec_delta_set(),
                            o_g.spec_delta_set().len() as int,
                            k,
                        ) implies #[trigger] mvmemory.entry_at(k, txn_idx) is None by {
                        assert(m1.entry_at(k, txn_idx) == (if last_modified@.contains(k) {
                            Option::<crate::mvmemory::mvmap::Entry>::None
                        } else {
                            m0.entry_at(k, txn_idx)
                        }));
                        if !last_modified@.contains(k) {
                            match io0.spec_output(txn_idx) {
                                Some(o_prev) => {
                                    assert(last_modified@ == output_keys(o_prev));
                                    assert(!key_in(
                                        o_prev.spec_write_set(),
                                        o_prev.spec_write_set().len() as int,
                                        k,
                                    ) && !key_in(
                                        o_prev.spec_delta_set(),
                                        o_prev.spec_delta_set().len() as int,
                                        k,
                                    )) by {
                                        if key_in(
                                            o_prev.spec_write_set(),
                                            o_prev.spec_write_set().len() as int,
                                            k,
                                        ) {
                                            let j = choose|j: int|
                                                0 <= j < o_prev.spec_write_set().len() && (
                                                #[trigger] o_prev.spec_write_set()[j]).0 == k;
                                            assert(output_keys(o_prev)[j] == k);
                                        }
                                        if key_in(
                                            o_prev.spec_delta_set(),
                                            o_prev.spec_delta_set().len() as int,
                                            k,
                                        ) {
                                            let j = choose|j: int|
                                                0 <= j < o_prev.spec_delta_set().len() && (
                                                #[trigger] o_prev.spec_delta_set()[j]).0 == k;
                                            assert(output_keys(o_prev)[o_prev.spec_write_set().len()
                                                + j] == k);
                                        }
                                    }
                                    assert(m0.entry_at(k, txn_idx) is None);
                                },
                                None => {
                                    assert(m0.entry_at(k, txn_idx) is None);
                                },
                            }
                        }
                        assert(mvmemory.entry_at(k, txn_idx) == m1.entry_at(k, txn_idx));
                    }
                }
                assert forall|i: TxnIndex| i < txns@.len() implies (
                match #[trigger] last_txn_io.spec_output(i) {
                    Some(o2) => slot_matches_output(*mvmemory, i, o2),
                    None => forall|k: usize| #[trigger] mvmemory.entry_at(k, i) is None,
                }) by {
                    if i == txn_idx {
                        assert(last_txn_io.spec_output(i) == Some(o_g));
                    } else {
                        assert(last_txn_io.spec_output(i) == io0.spec_output(i));
                        assert forall|k: usize| #[trigger] mvmemory.entry_at(k, i) == m0.entry_at(
                            k,
                            i,
                        ) by {
                            assert(m1.entry_at(k, i) == m0.entry_at(k, i));
                            assert(mvmemory.entry_at(k, i) == m1.entry_at(k, i));
                        }
                        match io0.spec_output(i) {
                            Some(o2) => {
                                lemma_slot_frame(m0, *mvmemory, i, o2);
                            },
                            None => {
                                assert forall|k: usize| #[trigger] mvmemory.entry_at(k, i)
                                    is None by {
                                    assert(m0.entry_at(k, i) is None);
                                }
                            },
                        }
                    }
                }
                assert forall|k: usize, i: TxnIndex| i < scheduler.spec_block_size() implies
                    inc_entry_ok(#[trigger] mvmemory.entry_at(k, i), scheduler.spec_status(i)) by {
                    assert(inc_entry_ok(m0.entry_at(k, i), s0.spec_status(i)));
                    if i == txn_idx {
                        assert(scheduler.spec_status(i) == crate::scheduler::TransactionStatus::Executed(incarnation));
                        if key_in(write_set@, write_set@.len() as int, k) {
                            let j = choose|j: int|
                                0 <= j < write_set@.len() && (#[trigger] write_set@[j]).0 == k;
                            assert(m1.entry_at(k, i) == Some(
                                crate::mvmemory::mvmap::Entry {
                                    estimate: false,
                                    cell: crate::mvmemory::mvmap::EntryCell::Write(
                                        version.1,
                                        write_set@[j].1,
                                    ),
                                },
                            ));
                        } else if key_in(delta_set@, delta_set@.len() as int, k) {
                            let j = choose|j: int|
                                0 <= j < delta_set@.len() && (#[trigger] delta_set@[j]).0 == k;
                            assert(m1.entry_at(k, i) == Some(
                                crate::mvmemory::mvmap::Entry {
                                    estimate: false,
                                    cell: crate::mvmemory::mvmap::EntryCell::Delta(
                                        delta_set@[j].1,
                                    ),
                                },
                            ));
                        } else {
                            assert(m1.entry_at(k, i) == (if last_modified@.contains(k) {
                                Option::<crate::mvmemory::mvmap::Entry>::None
                            } else {
                                m0.entry_at(k, i)
                            }));
                        }
                        assert(mvmemory.entry_at(k, i) == m1.entry_at(k, i));
                    } else {
                        assert(m1.entry_at(k, i) == m0.entry_at(k, i));
                        assert(mvmemory.entry_at(k, i) == m1.entry_at(k, i));
                    }
                }
            }
            Ok(WorkerState::Task(t))
        },
        WorkerState::Task(SchedulerTask::Validation(version)) => {
            let (txn_idx, incarnation) = version;
            let valid = match last_txn_io.last_read_set(txn_idx) {
                Some(read_set) => mvmemory.validate_read_set(txn_idx, read_set),
                None => true,
            };
            let aborted = !valid && scheduler.abort(txn_idx, incarnation);
            let ghost s1 = *scheduler;
            let mut estimate_keys: Vec<usize> = Vec::new();
            if aborted {
                estimate_keys = last_txn_io.last_modified_keys(txn_idx);
                mvmemory.convert_writes_to_estimates(txn_idx, &estimate_keys);
            }
            let ghost m1 = *mvmemory;
            let t = scheduler.finish_validation(txn_idx, aborted);
            proof {
                assert forall|k: usize| #[trigger] mvmemory.entry_at(k, txn_idx) == (
                if aborted && estimate_keys@.contains(k) {
                    match m0.entry_at(k, txn_idx) {
                        Some(e0) => Some(
                            crate::mvmemory::mvmap::Entry { estimate: true, cell: e0.cell },
                        ),
                        None => None,
                    }
                } else {
                    m0.entry_at(k, txn_idx)
                }) by {
                    if aborted && estimate_keys@.contains(k) {
                        let j = choose|j: int|
                            0 <= j < estimate_keys@.len() && estimate_keys@[j] == k;
                        assert(m1.entry_at(k, txn_idx) == (match m0.entry_at(k, txn_idx) {
                            Some(e0) => Some(
                                crate::mvmemory::mvmap::Entry {
                                    estimate: true,
                                    cell: e0.cell,
                                },
                            ),
                            None => None,
                        }));
                    } else if aborted {
                        assert(m1.entry_at(k, txn_idx) == m0.entry_at(k, txn_idx));
                    } else {
                        assert(m1.entry_at(k, txn_idx) == m0.entry_at(k, txn_idx));
                    }
                    assert(mvmemory.entry_at(k, txn_idx) == m1.entry_at(k, txn_idx));
                }
                assert forall|k: usize, i: TxnIndex|
                    i < txns@.len() && i != txn_idx implies #[trigger] mvmemory.entry_at(k, i)
                    == m0.entry_at(k, i) by {
                    assert(m1.entry_at(k, i) == m0.entry_at(k, i));
                    assert(mvmemory.entry_at(k, i) == m1.entry_at(k, i));
                }
                assert forall|i: TxnIndex| i < txns@.len() implies (
                match #[trigger] last_txn_io.spec_output(i) {
                    Some(o2) => slot_matches_output(*mvmemory, i, o2),
                    None => forall|k: usize| #[trigger] mvmemory.entry_at(k, i) is None,
                }) by {
                    match last_txn_io.spec_output(i) {
                        Some(o2) => {
                            assert forall|j: int|
                                0 <= j < o2.spec_write_set().len() implies (
                            match mvmemory.entry_at((#[trigger] o2.spec_write_set()[j]).0, i) {
                                Some(e) => match e.cell {
                                    crate::mvmemory::mvmap::EntryCell::Write(_inc, v) => v
                                        == o2.spec_write_set()[j].1,
                                    crate::mvmemory::mvmap::EntryCell::Delta(_d) => false,
                                },
                                None => false,
                            }) by {
                                let k = o2.spec_write_set()[j].0;
                                assert(mvmemory.entry_at(k, i) == m0.entry_at(k, i)
                                    || mvmemory.entry_at(k, i) == (match m0.entry_at(k, i) {
                                    Some(e0) => Some(
                                        crate::mvmemory::mvmap::Entry {
                                            estimate: true,
                                            cell: e0.cell,
                                        },
                                    ),
                                    None => None,
                                }));
                            }
                            assert forall|j: int|
                                0 <= j < o2.spec_delta_set().len() implies (
                            match mvmemory.entry_at((#[trigger] o2.spec_delta_set()[j]).0, i) {
                                Some(e) => e.cell == crate::mvmemory::mvmap::EntryCell::Delta(
                                    o2.spec_delta_set()[j].1,
                                ),
                                None => false,
                            }) by {
                                let k = o2.spec_delta_set()[j].0;
                                assert(mvmemory.entry_at(k, i) == m0.entry_at(k, i)
                                    || mvmemory.entry_at(k, i) == (match m0.entry_at(k, i) {
                                    Some(e0) => Some(
                                        crate::mvmemory::mvmap::Entry {
                                            estimate: true,
                                            cell: e0.cell,
                                        },
                                    ),
                                    None => None,
                                }));
                            }
                            assert forall|k: usize|
                                !key_in(
                                    o2.spec_write_set(),
                                    o2.spec_write_set().len() as int,
                                    k,
                                ) && !key_in(
                                    o2.spec_delta_set(),
                                    o2.spec_delta_set().len() as int,
                                    k,
                                ) implies #[trigger] mvmemory.entry_at(k, i) is None by {
                                assert(m0.entry_at(k, i) is None);
                                assert(mvmemory.entry_at(k, i) == m0.entry_at(k, i)
                                    || mvmemory.entry_at(k, i) == (match m0.entry_at(k, i) {
                                    Some(e0) => Some(
                                        crate::mvmemory::mvmap::Entry {
                                            estimate: true,
                                            cell: e0.cell,
                                        },
                                    ),
                                    None => None,
                                }));
                            }
                        },
                        None => {
                            assert forall|k: usize| #[trigger] mvmemory.entry_at(k, i)
                                is None by {
                                assert(m0.entry_at(k, i) is None);
                                assert(mvmemory.entry_at(k, i) == m0.entry_at(k, i)
                                    || mvmemory.entry_at(k, i) == (match m0.entry_at(k, i) {
                                    Some(e0) => Some(
                                        crate::mvmemory::mvmap::Entry {
                                            estimate: true,
                                            cell: e0.cell,
                                        },
                                    ),
                                    None => None,
                                }));
                            }
                        },
                    }
                }
                if !valid && s0.spec_status(txn_idx)
                    == crate::scheduler::TransactionStatus::Executed(incarnation) {
                    assert(aborted);
                    match last_txn_io.spec_output(txn_idx) {
                        Some(o2) => {
                            assert(estimate_keys@ == output_keys(o2));
                            assert forall|j: int|
                                0 <= j < output_keys(o2).len() implies (
                            match mvmemory.entry_at(#[trigger] output_keys(o2)[j], txn_idx) {
                                Some(e) => e.estimate,
                                None => false,
                            }) by {
                                let k = output_keys(o2)[j];
                                assert(estimate_keys@.contains(k)) by {
                                    assert(estimate_keys@[j] == k);
                                }
                                if j < o2.spec_write_set().len() {
                                    assert(output_keys(o2)[j] == o2.spec_write_set()[j].0);
                                    assert(m0.entry_at(k, txn_idx) is Some);
                                } else {
                                    let j2 = j - o2.spec_write_set().len();
                                    assert(output_keys(o2)[j] == o2.spec_delta_set()[j2].0);
                                    assert(m0.entry_at(k, txn_idx) is Some);
                                }
                            }
                        },
                        None => {},
                    }
                }
                assert forall|k: usize, i: TxnIndex| i < scheduler.spec_block_size() implies
                    inc_entry_ok(#[trigger] mvmemory.entry_at(k, i), scheduler.spec_status(i)) by {
                    assert(inc_entry_ok(m0.entry_at(k, i), s0.spec_status(i)));
                    assert(mvmemory.entry_at(k, i) == m1.entry_at(k, i));
                    if aborted {
                        if i == txn_idx && estimate_keys@.contains(k) {
                            let j = choose|j: int|
                                0 <= j < estimate_keys@.len() && estimate_keys@[j] == k;
                            assert(m1.entry_at(k, i) == (match m0.entry_at(k, i) {
                                Some(e0) => Some(
                                    crate::mvmemory::mvmap::Entry {
                                        estimate: true,
                                        cell: e0.cell,
                                    },
                                ),
                                None => None,
                            }));
                        } else if i == txn_idx {
                            assert(m1.entry_at(k, i) == m0.entry_at(k, i));
                        } else {
                            assert(m1.entry_at(k, i) == m0.entry_at(k, i));
                        }
                    } else {
                        assert(m1.entry_at(k, i) == m0.entry_at(k, i));
                    }
                    if i != txn_idx {
                        assert(scheduler.spec_status(i) == s1.spec_status(i));
                        assert(s1.spec_status(i) == s0.spec_status(i));
                    } else {
                        assert(inc_entry_ok(m1.entry_at(k, i), s1.spec_status(i)));
                    }
                }
            }
            Ok(WorkerState::Task(t))
        },
    }
}

/// How many worker phases the driver is willing to run before giving the
/// block up: generous enough that it is never reached on a block the
/// engine can finish.
fn fuel_budget(n: usize) -> (r: usize) {
    let squared = match n.checked_mul(n) {
        Some(s) => s,
        None => usize::MAX,
    };
    let scaled = match squared.checked_mul(64) {
        Some(s) => s,
        None => usize::MAX,
    };
    match scaled.checked_add(4096) {
        Some(s) => s,
        None => usize::MAX,
    }
}

/// The block engine: runs a block of transactions speculatively with a
/// fixed number of simulated workers and returns the outputs in block order
/// together with the final multi-version memory.
pub struct ParallelExecutor<T, V> {
    concurrency_level: usize,
    phantom: core::marker::PhantomData<(T, V)>,
}

impl<T, V: VM<T>> ParallelExecutor<T, V> {
    /// How many simulated workers drive the block.
    pub closed spec fn spec_concurrency_level(&self) -> usize {
        self.concurrency_level
    }

    /// An engine with the given number of simulated workers, at least one.
    pub fn new(concurrency_level: usize) -> (r: ParallelExecutor<T, V>)
        requires
            concurrency_level >= 1,
        ensures
            r.spec_concurrency_level() == concurrency_level,
    {
        ParallelExecutor { concurrency_level, phantom: core::marker::PhantomData }
    }

    /// Execute the block and hand back one output per transaction, in block
    /// order, plus the final multi-version memory, whose slot for each
    /// transaction holds exactly that output's writes and deltas. `None`
    /// arises only from the engine's own giving-up paths: a fatal machine
    /// failure, an exhausted phase budget, or a transaction left without a
    /// recorded output. An empty block comes back at once as empty outputs
    /// over empty memory, with no task dispatched.
    pub fn execute_transactions(&self, txns: &Vec<T>, parameter: &V::Parameter) -> (r: Option<
        (Vec<V::Output>, MVMemory),
    >)
        requires
            V::param_wf(parameter),
            self.spec_concurrency_level() >= 1,
        ensures
            r matches Some(pair) ==> pair.1.wf() && pair.1.spec_block_size() == txns@.len()
                && pair.0@.len() == txns@.len() && (forall|i: TxnIndex|
                i < txns@.len() ==> output_wf(#[trigger] pair.0@[i as int]) && slot_matches_output(
                    pair.1,
                    i,
                    pair.0@[i as int],
                )),
            txns@.len() == 0 ==> {
                &&& r matches Some(pair)
                &&& pair.0@.len() == 0
                &&& forall|k: usize| pair.1.entries(k).len() == 0
            },
    {
        let n = txns.len();
        let vm = V::new(parameter);
        let mut mvmemory = MVMemory::new(n);
        let mut scheduler = Scheduler::new(n);
        let mut last_txn_io: LastTxnIO<V::Output> = LastTxnIO::new(n);
        if n == 0 {
            let outputs: Vec<V::Output> = Vec::new();
            return Some((outputs, mvmemory));
        }
        let level = self.concurrency_level;
        let mut workers: Vec<WorkerState<V::Output>> = Vec::new();
        let mut w: usize = 0;
        while w < level
            invariant
                w <= level,
                workers@.len() == w,
                forall|q: int|
                    0 <= q < w ==> (#[trigger] workers@[q]) matches WorkerState::Task(
                        SchedulerTask::NoTask,
                    ),
            decreases level - w,
        {
            workers.push(WorkerState::Task(SchedulerTask::NoTask));
            w += 1;
        }
        proof {
            assert forall|q: int| 0 <= q < workers@.len() implies !holds_guard(
                #[trigger] workers@[q],
            ) && !observed_done(workers@[q]) && worker_state_wf(workers@[q], n) by {}
            lemma_guard_count_zero(workers@);
        }
        let mut fuel = fuel_budget(n);
        let mut all_halted = false;
        proof {
            assert forall|k: usize, i: TxnIndex| i < scheduler.spec_block_size() implies
                inc_entry_ok(#[trigger] mvmemory.entry_at(k, i), scheduler.spec_status(i)) by {
                assert(mvmemory.entries(k).len() == 0);
                crate::kvmap::lemma_map_of_dom(mvmemory.entries(k), i);
            }
            assert forall|i: TxnIndex| i < n implies (
            match #[trigger] last_txn_io.spec_output(i) {
                Some(o2) => slot_matches_output(mvmemory, i, o2),
                None => forall|k: usize| #[trigger] mvmemory.entry_at(k, i) is None,
            }) by {
                assert(last_txn_io.spec_output(i) is None);
                assert forall|k: usize| #[trigger] mvmemory.entry_at(k, i) is None by {
                    assert(mvmemory.entries(k).len() == 0);
                    crate::kvmap::lemma_map_of_dom(mvmemory.entries(k), i);
                }
            }
        }
        while fuel > 0 && !all_halted
            invariant
                vm.wf(),
                mvmemory.wf(),
                scheduler.wf(),
                last_txn_io.wf(),
                mvmemory.spec_block_size() == txns@.len(),
                scheduler.spec_block_size() == txns@.len(),
                last_txn_io.spec_len() == txns@.len(),
                n == txns@.len(),
                n >= 1,
                level >= 1,
                workers@.len() == level,
                incarnation_inv(mvmemory, scheduler),
                io_mem_coherent(last_txn_io, mvmemory, n),
                scheduler.spec_num_active_tasks() == guard_count(workers@),
                forall|q: int|
                    0 <= q < workers@.len() ==> worker_state_wf(#[trigger] workers@[q], n),
                forall|q: int|
                    0 <= q < workers@.len() && observed_done(#[trigger] workers@[q])
                        ==> scheduler.spec_done(),
                all_halted ==> forall|q: int|
                    0 <= q < workers@.len() ==> (#[trigger] workers@[q]) is Halted,
            decreases fuel,
        {
            let mut halted = true;
            let mut w: usize = 0;
            while w < level
                invariant
                    vm.wf(),
                    mvmemory.wf(),
                    scheduler.wf(),
                    last_txn_io.wf(),
                    mvmemory.spec_block_size() == txns@.len(),
                    scheduler.spec_block_size() == txns@.len(),
                    last_txn_io.spec_len() == txns@.len(),
                    n == txns@.len(),
                    n >= 1,
                    level >= 1,
                    workers@.len() == level,
                    incarnation_inv(mvmemory, scheduler),
                    io_mem_coherent(last_txn_io, mvmemory, n),
                    scheduler.spec_num_active_tasks() == guard_count(workers@),
                    w <= level,
                    forall|q: int|
                        0 <= q < workers@.len() ==> worker_state_wf(#[trigger] workers@[q], n),
                    forall|q: int|
                        0 <= q < workers@.len() && observed_done(#[trigger] workers@[q])
                            ==> scheduler.spec_done(),
                    halted ==> forall|q: int| 0 <= q < w ==> (#[trigger] workers@[q]) is Halted,
                decreases level - w,
            {
                let ghost workers_pre = workers@;
                let mut st = WorkerState::Task(SchedulerTask::NoTask);
                core::mem::swap(&mut st, &mut workers[w]);
                let is_halted = match &st {
                    WorkerState::Halted => true,
                    _ => false,
                };
                if is_halted {
                    workers[w] = st;
                    proof {
                        assert(workers@ =~= workers_pre);
                    }
                } else {
                    halted = false;
                    proof {
                        lemma_guard_count_bounds(workers_pre, w as int);
                    }
                    match step_worker(
                        &vm,
                        txns,
                        &mut mvmemory,
                        &mut scheduler,
                        &mut last_txn_io,
                        st,
                    ) {
                        Ok(st2) => {
                            workers[w] = st2;
                            proof {
                                assert(workers@ =~= workers_pre.update(w as int, st2));
                                lemma_guard_count_update(workers_pre, w as int, st2);
                            }
                        },
                        Err(_) => {
                            return None;
                        },
                    }
                }
                w += 1;
            }
            all_halted = halted;
            fuel -= 1;
        }
        if !all_halted {
            return None;
        }
        proof {
            // the block completed: the done marker is set and no task guard
            // is outstanding
            assert(workers@[0] is Halted);
            assert(scheduler.spec_done());
            lemma_guard_count_zero(workers@);
            assert(scheduler.spec_num_active_tasks() == 0);
        }
        let ghost io_done = last_txn_io;
        proof {
            assert forall|q: TxnIndex|
                q < n implies output_wf_opt(#[trigger] last_txn_io.spec_output(q)) by {
                last_txn_io.lemma_output_wf(q);
            }
        }
        let mut outputs: Vec<V::Output> = Vec::new();
        let mut i: usize = 0;
        while i < n
            invariant
                last_txn_io.wf(),
                last_txn_io.spec_len() == txns@.len(),
                n == txns@.len(),
                n >= 1,
                i <= n,
                outputs@.len() == i,
                forall|q: TxnIndex|
                    q < n ==> output_wf_opt(#[trigger] last_txn_io.spec_output(q)),
                forall|q: TxnIndex|
                    i <= q && q < n ==> #[trigger] last_txn_io.spec_output(q)
                        == io_done.spec_output(q),
                forall|q: TxnIndex|
                    q < i ==> Some(#[trigger] outputs@[q as int]) == io_done.spec_output(q),
            decreases n - i,
        {
            if !last_txn_io.has_output(i) {
                return None;
            }
            outputs.push(last_txn_io.take_output(i));
            i += 1;
        }
        proof {
            assert forall|i2: TxnIndex|
                i2 < txns@.len() implies output_wf(#[trigger] outputs@[i2 as int])
                && slot_matches_output(mvmemory, i2, outputs@[i2 as int]) by {
                assert(Some(outputs@[i2 as int]) == io_done.spec_output(i2));
                assert(output_wf_opt(io_done.spec_output(i2)));
            }
        }
        Some((outputs, mvmemory))
    }
}

} // verus!
