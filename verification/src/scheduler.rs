//! The cooperative scheduler: it hands out execution and validation tasks,
//! tracks each transaction's status and suspended dependents, and decides
//! when the block is done.
//!
//! Two cursors sweep the block. While the execution cursor is behind the
//! validation cursor the scheduler prefers execution tasks; validations are
//! handed out otherwise. Either cursor may be lowered again: the validation
//! cursor when an execution writes a fresh key or an abort occurs, the
//! execution cursor when suspended transactions are resumed.

use vstd::prelude::*;

use crate::sync::{AtomicBool, AtomicUsize};
use crate::types::{Incarnation, TxnIndex, Version};

verus! {

/// The lifecycle stage of one transaction, with its current incarnation.
#[derive(Clone, Copy, PartialEq, Eq, Structural, Debug)]
pub enum TransactionStatus {
    /// The incarnation may be dispatched for execution.
    ReadyToExecute(Incarnation),
    /// The incarnation is being executed.
    Executing(Incarnation),
    /// The incarnation hit a dependency and waits for its blocker to finish.
    Suspended(Incarnation),
    /// The incarnation finished executing and may be validated.
    Executed(Incarnation),
    /// Validation failed; the next incarnation is about to be scheduled.
    Aborting(Incarnation),
}

impl TransactionStatus {
    /// The incarnation the status carries.
    pub open spec fn spec_incarnation(self) -> Incarnation {
        match self {
            TransactionStatus::ReadyToExecute(i) => i,
            TransactionStatus::Executing(i) => i,
            TransactionStatus::Suspended(i) => i,
            TransactionStatus::Executed(i) => i,
            TransactionStatus::Aborting(i) => i,
        }
    }

    /// The incarnation the status carries.
    pub fn incarnation_number(&self) -> (r: Incarnation)
        ensures
            r == self.spec_incarnation(),
    {
        match self {
            TransactionStatus::ReadyToExecute(i) => *i,
            TransactionStatus::Executing(i) => *i,
            TransactionStatus::Suspended(i) => *i,
            TransactionStatus::Executed(i) => *i,
            TransactionStatus::Aborting(i) => *i,
        }
    }

    /// Move to `ReadyToExecute`, keeping the incarnation.
    pub fn ready_to_execute(&mut self)
        ensures
            *final(self) == TransactionStatus::ReadyToExecute(old(self).spec_incarnation()),
    {
        *self = TransactionStatus::ReadyToExecute(self.incarnation_number());
    }

    /// Move to `Executing`, keeping the incarnation.
    pub fn executing(&mut self)
        ensures
            *final(self) == TransactionStatus::Executing(old(self).spec_incarnation()),
    {
        *self = TransactionStatus::Executing(self.incarnation_number());
    }

    /// Move to `Executed`, keeping the incarnation.
    pub fn executed(&mut self)
        ensures
            *final(self) == TransactionStatus::Executed(old(self).spec_incarnation()),
    {
        *self = TransactionStatus::Executed(self.incarnation_number());
    }

    /// Move to `Aborting`, keeping the incarnation.
    pub fn aborting(&mut self)
        ensures
            *final(self) == TransactionStatus::Aborting(old(self).spec_incarnation()),
    {
        *self = TransactionStatus::Aborting(self.incarnation_number());
    }
}

/// What the scheduler hands a worker.
#[derive(Debug)]
pub enum SchedulerTask {
    /// Execute this incarnation.
    Execution(Version),
    /// Validate the read set this incarnation captured.
    Validation(Version),
    /// Nothing to hand out right now; ask again.
    NoTask,
    /// The block is complete.
    Done,
}

/// The smallest element among `base` and the elements of `s`.
pub open spec fn seq_min_with(s: Seq<usize>, base: usize) -> usize
    decreases s.len(),
{
    if s.len() == 0 {
        base
    } else if s.last() < seq_min_with(s.drop_last(), base) {
        s.last()
    } else {
        seq_min_with(s.drop_last(), base)
    }
}

/// The scheduler state for one block.
pub struct Scheduler {
    block_size: usize,
    execution_idx: AtomicUsize,
    validation_idx: AtomicUsize,
    decrease_cnt: AtomicUsize,
    num_active_tasks: AtomicUsize,
    done_marker: AtomicBool,
    txn_dependency: Vec<Vec<TxnIndex>>,
    txn_status: Vec<TransactionStatus>,
}

impl Scheduler {
    /// The number of transactions in the block.
    pub closed spec fn spec_block_size(&self) -> usize {
        self.block_size
    }

    /// The execution cursor.
    pub closed spec fn spec_execution_idx(&self) -> usize {
        self.execution_idx@
    }

    /// The validation cursor.
    pub closed spec fn spec_validation_idx(&self) -> usize {
        self.validation_idx@
    }

    /// How many cursor decreases have happened, as a wrapping epoch.
    pub closed spec fn spec_decrease_cnt(&self) -> usize {
        self.decrease_cnt@
    }

    /// How many task guards are outstanding.
    pub closed spec fn spec_num_active_tasks(&self) -> usize {
        self.num_active_tasks@
    }

    /// Whether the block has been declared complete.
    pub closed spec fn spec_done(&self) -> bool {
        self.done_marker@
    }

    /// The status of one transaction.
    pub closed spec fn spec_status(&self, i: TxnIndex) -> TransactionStatus {
        self.txn_status@[i as int]
    }

    /// The transactions suspended on `i`, in arrival order.
    pub closed spec fn spec_deps(&self, i: TxnIndex) -> Seq<TxnIndex> {
        self.txn_dependency@[i as int]@
    }

    /// Internal shape: one status and one dependency list per transaction,
    /// dependency entries inside the block, cursors never past the block end.
    pub closed spec fn wf(&self) -> bool {
        &&& self.txn_status@.len() == self.block_size
        &&& self.txn_dependency@.len() == self.block_size
        &&& forall|i: int, p: int|
            0 <= i < self.block_size && 0 <= p < self.txn_dependency@[i]@.len() ==> (
            #[trigger] self.txn_dependency@[i]@[p]) < self.block_size
        &&& self.execution_idx@ <= self.block_size
        &&& self.validation_idx@ <= self.block_size
    }

    /// A fresh scheduler: cursors at the block start, every transaction
    /// ready for its first incarnation, nothing suspended, nothing done.
    pub fn new(block_size: usize) -> (r: Scheduler)
        ensures
            r.wf(),
            r.spec_block_size() == block_size,
            r.spec_execution_idx() == 0,
            r.spec_validation_idx() == 0,
            r.spec_decrease_cnt() == 0,
            r.spec_num_active_tasks() == 0,
            !r.spec_done(),
            forall|i: TxnIndex|
                i < block_size ==> #[trigger] r.spec_status(i) == TransactionStatus::ReadyToExecute(
                    0usize,
                ),
            forall|i: TxnIndex|
                i < block_size ==> #[trigger] r.spec_deps(i) == Seq::<TxnIndex>::empty(),
    {
        let mut txn_dependency: Vec<Vec<TxnIndex>> = Vec::new();
        let mut txn_status: Vec<TransactionStatus> = Vec::new();
        let mut i: usize = 0;
        while i < block_size
            invariant
                i <= block_size,
                txn_dependency@.len() == i,
                txn_status@.len() == i,
                forall|j: int| 0 <= j < i ==> (#[trigger] txn_dependency@[j])@.len() == 0,
                forall|j: int|
                    0 <= j < i ==> #[trigger] txn_status@[j] == TransactionStatus::ReadyToExecute(
                        0usize,
                    ),
            decreases block_size - i,
        {
            txn_dependency.push(Vec::new());
            txn_status.push(TransactionStatus::ReadyToExecute(0));
            i += 1;
        }
        Scheduler {
            block_size,
            execution_idx: AtomicUsize::new(0),
            validation_idx: AtomicUsize::new(0),
            decrease_cnt: AtomicUsize::new(0),
            num_active_tasks: AtomicUsize::new(0),
            done_marker: AtomicBool::new(false),
            txn_dependency,
            txn_status,
        }
    }

    /// Whether the block has been declared complete.
    pub fn done(&self) -> (r: bool)
        ensures
            r == self.spec_done(),
    {
        self.done_marker.load()
    }

    /// Lower the execution cursor to `target_idx` if it is above it, and
    /// bump the decrease epoch.
    fn decrease_execution_idx(&mut self, target_idx: usize)
        requires
            old(self).wf(),
        ensures
            final(self).wf(),
            final(self).spec_execution_idx() == if target_idx < old(self).spec_execution_idx() {
                target_idx
            } else {
                old(self).spec_execution_idx()
            },
            unchanged_but_exec_cursor(old(self), final(self)),
    {
        self.execution_idx.fetch_min(target_idx);
        self.decrease_cnt.increment();
    }

    /// Lower the validation cursor to `target_idx` if it is above it, and
    /// bump the decrease epoch.
    fn decrease_validation_idx(&mut self, target_idx: usize)
        requires
            old(self).wf(),
        ensures
            final(self).wf(),
            final(self).spec_validation_idx() == if target_idx < old(self).spec_validation_idx() {
                target_idx
            } else {
                old(self).spec_validation_idx()
            },
            unchanged_but_val_cursor(old(self), final(self)),
    {
        self.validation_idx.fetch_min(target_idx);
        self.decrease_cnt.increment();
    }

    /// Declare the block complete when both cursors are past the end and no
    /// task guard is outstanding.
    fn check_done(&mut self) -> (r: bool)
        requires
            old(self).wf(),
        ensures
            final(self).wf(),
            r == (old(self).spec_execution_idx() >= old(self).spec_block_size() && old(self).spec_validation_idx() >= old(self).spec_block_size() && old(self).spec_num_active_tasks() == 0),
            final(self).spec_done() == (old(self).spec_done() || r),
            unchanged_but_done(old(self), final(self)),
    {
        let observed_cnt = self.decrease_cnt.load();
        let execution_idx = self.execution_idx.load();
        let validation_idx = self.validation_idx.load();
        let num_active_tasks = self.num_active_tasks.load();
        let min_idx = if execution_idx < validation_idx {
            execution_idx
        } else {
            validation_idx
        };
        if min_idx < self.block_size || num_active_tasks > 0 {
            return false;
        }
        if observed_cnt == self.decrease_cnt.load() {
            self.done_marker.store(true);
            true
        } else {
            false
        }
    }

    /// The incarnation of `txn_idx` if it is currently `Executed`.
    fn is_executed(&self, txn_idx: TxnIndex) -> (r: Option<Incarnation>)
        requires
            self.wf(),
        ensures
            r == (if txn_idx < self.spec_block_size() && self.spec_status(txn_idx) matches
                TransactionStatus::Executed(i) {
                Some(self.spec_status(txn_idx).spec_incarnation())
            } else {
                Option::<Incarnation>::None
            }),
    {
        if txn_idx >= self.block_size {
            return None;
        }
        match self.txn_status[txn_idx] {
            TransactionStatus::Executed(i) => Some(i),
            _ => None,
        }
    }

    /// Whether `txn_idx` is currently executing exactly this incarnation.
    pub fn executing_incarnation(&self, txn_idx: TxnIndex, incarnation: Incarnation) -> (r: bool)
        requires
            self.wf(),
            txn_idx < self.spec_block_size(),
        ensures
            r == (self.spec_status(txn_idx) == TransactionStatus::Executing(incarnation)),
    {
        match self.txn_status[txn_idx] {
            TransactionStatus::Executing(i) => i == incarnation,
            _ => false,
        }
    }

    /// Move `txn_idx` from `ReadyToExecute` to `Executing`, handing back the
    /// incarnation; `None` when it is not ready (or out of the block).
    fn try_incarnate(&mut self, txn_idx: TxnIndex) -> (r: Option<Incarnation>)
        requires
            old(self).wf(),
        ensures
            final(self).wf(),
            match r {
                Some(i) => txn_idx < old(self).spec_block_size() && old(self).spec_status(txn_idx)
                    == TransactionStatus::ReadyToExecute(i) && final(self).spec_status(txn_idx)
                    == TransactionStatus::Executing(i) && status_changed_only(
                    old(self),
                    final(self),
                    txn_idx,
                ),
                None => !(txn_idx < old(self).spec_block_size() && old(self).spec_status(txn_idx)
                    is ReadyToExecute) && *final(self) == *old(self),
            },
    {
        if txn_idx < self.block_size {
            match self.txn_status[txn_idx] {
                TransactionStatus::ReadyToExecute(i) => {
                    self.txn_status[txn_idx] = TransactionStatus::Executing(i);
                    return Some(i);
                },
                _ => {
                    return None;
                },
            }
        }
        None
    }

    /// Try to hand out the execution of the transaction under the execution
    /// cursor, advancing the cursor; past the block end, run the completion
    /// check instead.
    fn next_version_to_execute(&mut self) -> (r: Option<Version>)
        requires
            old(self).wf(),
        ensures
            final(self).wf(),
            final(self).spec_block_size() == old(self).spec_block_size(),
            forall|i: TxnIndex|
                i < old(self).spec_block_size() ==> #[trigger] final(self).spec_deps(i) == old(self).spec_deps(i),
            old(self).spec_execution_idx() >= old(self).spec_block_size() ==> r is None
                && final(self).spec_execution_idx() == old(self).spec_execution_idx()
                && final(self).spec_validation_idx() == old(self).spec_validation_idx()
                && final(self).spec_num_active_tasks() == old(self).spec_num_active_tasks()
                && (forall|i: TxnIndex|
                i < old(self).spec_block_size() ==> #[trigger] final(self).spec_status(i) == old(self).spec_status(i)) && final(self).spec_done() == (old(self).spec_done() || (old(self).spec_validation_idx() >= old(self).spec_block_size() && old(self).spec_num_active_tasks() == 0)),
            old(self).spec_execution_idx() < old(self).spec_block_size() ==> final(self).spec_done()
                == old(self).spec_done() && final(self).spec_execution_idx() == old(self).spec_execution_idx() + 1 && final(self).spec_validation_idx() == old(self).spec_validation_idx() && (match r {
                Some(v) => v.0 == old(self).spec_execution_idx() && old(self).spec_status(v.0)
                    == TransactionStatus::ReadyToExecute(v.1) && final(self).spec_status(v.0)
                    == TransactionStatus::Executing(v.1) && (forall|i: TxnIndex|
                    i < old(self).spec_block_size() && i != v.0 ==> #[trigger] final(self).spec_status(i) == old(self).spec_status(i)) && final(self).spec_num_active_tasks() == crate::sync::wrap_inc(
                    old(self).spec_num_active_tasks(),
                ),
                None => !(old(self).spec_status(old(self).spec_execution_idx())
                    is ReadyToExecute) && (forall|i: TxnIndex|
                    i < old(self).spec_block_size() ==> #[trigger] final(self).spec_status(i)
                        == old(self).spec_status(i)) && final(self).spec_num_active_tasks() == old(self).spec_num_active_tasks(),
            }),
    {
        let idx_to_execute = self.execution_idx.load();
        if idx_to_execute >= self.block_size {
            self.check_done();
            return None;
        }
        self.num_active_tasks.increment();
        let idx_to_execute = self.execution_idx.increment();
        match self.try_incarnate(idx_to_execute) {
            Some(incarnation) => Some((idx_to_execute, incarnation)),
            None => {
                self.num_active_tasks.decrement();
                None
            },
        }
    }

    /// Try to hand out the validation of the transaction under the
    /// validation cursor, advancing the cursor; past the block end, run the
    /// completion check instead.
    fn next_version_to_validate(&mut self) -> (r: Option<Version>)
        requires
            old(self).wf(),
        ensures
            final(self).wf(),
            final(self).spec_block_size() == old(self).spec_block_size(),
            forall|i: TxnIndex|
                i < old(self).spec_block_size() ==> #[trigger] final(self).spec_deps(i) == old(self).spec_deps(i),
            forall|i: TxnIndex|
                i < old(self).spec_block_size() ==> #[trigger] final(self).spec_status(i) == old(self).spec_status(i),
            old(self).spec_validation_idx() >= old(self).spec_block_size() ==> r is None
                && final(self).spec_execution_idx() == old(self).spec_execution_idx()
                && final(self).spec_validation_idx() == old(self).spec_validation_idx()
                && final(self).spec_num_active_tasks() == old(self).spec_num_active_tasks()
                && final(self).spec_done() == (old(self).spec_done() || (old(self).spec_execution_idx() >= old(self).spec_block_size() && old(self).spec_num_active_tasks() == 0)),
            old(self).spec_validation_idx() < old(self).spec_block_size() ==> final(self).spec_done() == old(self).spec_done() && final(self).spec_validation_idx() == old(self).spec_validation_idx() + 1 && final(self).spec_execution_idx() == old(self).spec_execution_idx() && (match r {
                Some(v) => v.0 == old(self).spec_validation_idx() && old(self).spec_status(v.0)
                    == TransactionStatus::Executed(v.1) && final(self).spec_num_active_tasks()
                    == crate::sync::wrap_inc(old(self).spec_num_active_tasks()),
                None => !(old(self).spec_status(old(self).spec_validation_idx()) is Executed)
                    && final(self).spec_num_active_tasks() == old(self).spec_num_active_tasks(),
            }),
    {
        let idx_to_validate = self.validation_idx.load();
        if idx_to_validate >= self.block_size {
            self.check_done();
            return None;
        }
        self.num_active_tasks.increment();
        let idx_to_validate = self.validation_idx.increment();
        match self.is_executed(idx_to_validate) {
            Some(incarnation) => Some((idx_to_validate, incarnation)),
            None => {
                self.num_active_tasks.decrement();
                None
            },
        }
    }

    /// Hand out the next task: an execution while the execution cursor is
    /// behind the validation cursor, a validation otherwise, `Done` once the
    /// block has been declared complete, and `NoTask` when the transaction
    /// under the preferred cursor is not in the right stage. An execution
    /// dispatches exactly the transaction under the execution cursor and
    /// advances it; a validation likewise under the validation cursor; past
    /// the block end, the completion check may set the done flag.
    pub fn next_task(&mut self) -> (r: SchedulerTask)
        requires
            old(self).wf(),
        ensures
            final(self).wf(),
            final(self).spec_block_size() == old(self).spec_block_size(),
            old(self).spec_done() ==> final(self).spec_done(),
            forall|i: TxnIndex|
                i < old(self).spec_block_size() ==> #[trigger] final(self).spec_deps(i) == old(self).spec_deps(i),
            match r {
                SchedulerTask::Done => old(self).spec_done() && *final(self) == *old(self),
                SchedulerTask::Execution(v) => {
                    &&& !old(self).spec_done()
                    &&& old(self).spec_execution_idx() < old(self).spec_validation_idx()
                    &&& v.0 == old(self).spec_execution_idx()
                    &&& v.0 < old(self).spec_block_size()
                    &&& old(self).spec_status(v.0) == TransactionStatus::ReadyToExecute(v.1)
                    &&& final(self).spec_status(v.0) == TransactionStatus::Executing(v.1)
                    &&& forall|i: TxnIndex|
                        i < old(self).spec_block_size() && i != v.0 ==> #[trigger] final(self).spec_status(i) == old(self).spec_status(i)
                    &&& final(self).spec_execution_idx() == old(self).spec_execution_idx() + 1
                    &&& final(self).spec_validation_idx() == old(self).spec_validation_idx()
                    &&& final(self).spec_num_active_tasks() == crate::sync::wrap_inc(
                        old(self).spec_num_active_tasks(),
                    )
                    &&& !final(self).spec_done()
                },
                SchedulerTask::Validation(v) => {
                    &&& !old(self).spec_done()
                    &&& old(self).spec_execution_idx() >= old(self).spec_validation_idx()
                    &&& v.0 == old(self).spec_validation_idx()
                    &&& v.0 < old(self).spec_block_size()
                    &&& old(self).spec_status(v.0) == TransactionStatus::Executed(v.1)
                    &&& forall|i: TxnIndex|
                        i < old(self).spec_block_size() ==> #[trigger] final(self).spec_status(i)
                            == old(self).spec_status(i)
                    &&& final(self).spec_validation_idx() == old(self).spec_validation_idx() + 1
                    &&& final(self).spec_execution_idx() == old(self).spec_execution_idx()
                    &&& final(self).spec_num_active_tasks() == crate::sync::wrap_inc(
                        old(self).spec_num_active_tasks(),
                    )
                    &&& !final(self).spec_done()
                },
                SchedulerTask::NoTask => {
                    &&& !old(self).spec_done()
                    &&& forall|i: TxnIndex|
                        i < old(self).spec_block_size() ==> #[trigger] final(self).spec_status(i)
                            == old(self).spec_status(i)
                    &&& final(self).spec_num_active_tasks() == old(self).spec_num_active_tasks()
                    &&& ({
                        ||| {
                            &&& old(self).spec_execution_idx() < old(self).spec_validation_idx()
                            &&& !(old(self).spec_status(old(self).spec_execution_idx())
                                is ReadyToExecute)
                            &&& final(self).spec_execution_idx() == old(self).spec_execution_idx()
                                + 1
                            &&& final(self).spec_validation_idx() == old(self).spec_validation_idx()
                            &&& final(self).spec_done() == old(self).spec_done()
                        }
                        ||| {
                            &&& old(self).spec_execution_idx() >= old(self).spec_validation_idx()
                            &&& old(self).spec_validation_idx() < old(self).spec_block_size()
                            &&& !(old(self).spec_status(old(self).spec_validation_idx())
                                is Executed)
                            &&& final(self).spec_validation_idx() == old(self).spec_validation_idx() + 1
                            &&& final(self).spec_execution_idx() == old(self).spec_execution_idx()
                            &&& final(self).spec_done() == old(self).spec_done()
                        }
                        ||| {
                            &&& old(self).spec_execution_idx() >= old(self).spec_validation_idx()
                            &&& old(self).spec_validation_idx() >= old(self).spec_block_size()
                            &&& final(self).spec_execution_idx() == old(self).spec_execution_idx()
                            &&& final(self).spec_validation_idx() == old(self).spec_validation_idx()
                            &&& final(self).spec_done() == (old(self).spec_execution_idx() >= old(self).spec_block_size() && old(self).spec_num_active_tasks() == 0)
                        }
                    })
                },
            },
    {
        if self.done() {
            return SchedulerTask::Done;
        }
        let idx_to_execute = self.execution_idx.load();
        let idx_to_validate = self.validation_idx.load();
        if idx_to_execute < idx_to_validate {
            match self.next_version_to_execute() {
                Some(version) => SchedulerTask::Execution(version),
                None => SchedulerTask::NoTask,
            }
        } else {
            match self.next_version_to_validate() {
                Some(version) => SchedulerTask::Validation(version),
                None => SchedulerTask::NoTask,
            }
        }
    }

    /// Register that `txn_idx` waits for `blocking_txn_idx`: unless the
    /// blocker has already executed, the waiter is suspended, queued on the
    /// blocker, and its task guard released. Returns whether the waiter was
    /// suspended; on `false` the caller simply retries its read.
    pub fn wait_for_dependency(&mut self, txn_idx: TxnIndex, blocking_txn_idx: TxnIndex) -> (r:
        bool)
        requires
            old(self).wf(),
            txn_idx < old(self).spec_block_size(),
            blocking_txn_idx < old(self).spec_block_size(),
        ensures
            final(self).wf(),
            final(self).spec_block_size() == old(self).spec_block_size(),
            old(self).spec_status(blocking_txn_idx) is Executed || !(old(self).spec_status(txn_idx)
                is Executing) ==> !r && *final(self) == *old(self),
            match old(self).spec_status(txn_idx) {
                TransactionStatus::Executing(i) => !(old(self).spec_status(blocking_txn_idx)
                    is Executed) ==> {
                    &&& r
                    &&& final(self).spec_status(txn_idx) == TransactionStatus::Suspended(i)
                    &&& forall|j: TxnIndex|
                        j < old(self).spec_block_size() && j != txn_idx ==> #[trigger] final(self).spec_status(j) == old(self).spec_status(j)
                    &&& final(self).spec_deps(blocking_txn_idx) == old(self).spec_deps(
                        blocking_txn_idx,
                    ).push(txn_idx)
                    &&& forall|j: TxnIndex|
                        j < old(self).spec_block_size() && j != blocking_txn_idx
                            ==> #[trigger] final(self).spec_deps(j) == old(self).spec_deps(j)
                    &&& final(self).spec_num_active_tasks() == crate::sync::wrap_dec(
                        old(self).spec_num_active_tasks(),
                    )
                    &&& final(self).spec_execution_idx() == old(self).spec_execution_idx()
                    &&& final(self).spec_validation_idx() == old(self).spec_validation_idx()
                    &&& final(self).spec_done() == old(self).spec_done()
                },
                _ => true,
            },
    {
        match self.txn_status[blocking_txn_idx] {
            TransactionStatus::Executed(_) => {
                return false;
            },
            _ => {},
        }
        match self.txn_status[txn_idx] {
            TransactionStatus::Executing(i) => {
                self.txn_status[txn_idx] = TransactionStatus::Suspended(i);
                let deps = &mut self.txn_dependency[blocking_txn_idx];
                deps.push(txn_idx);
                self.num_active_tasks.decrement();
                proof {
                    assert forall|x: int, p: int|
                        0 <= x < final(self).spec_block_size() && 0 <= p
                            < final(self).txn_dependency@[x]@.len() implies (#[trigger] final(self).txn_dependency@[x]@[p]) < final(self).spec_block_size() by {
                        if x == blocking_txn_idx && p == final(self).txn_dependency@[x]@.len()
                            - 1 {
                        } else {
                            assert(final(self).txn_dependency@[x]@[p] == old(self).txn_dependency@[x]@[p]);
                        }
                    }
                }
                true
            },
            _ => false,
        }
    }

    /// Resume every transaction in `deps` that is suspended, and lower the
    /// execution cursor to the smallest of them.
    fn resume_dependencies(&mut self, deps: &Vec<TxnIndex>)
        requires
            old(self).wf(),
            forall|p: int| 0 <= p < deps@.len() ==> (#[trigger] deps@[p]) < old(self).spec_block_size(),
        ensures
            final(self).wf(),
            final(self).spec_block_size() == old(self).spec_block_size(),
            forall|j: TxnIndex|
                j < old(self).spec_block_size() ==> #[trigger] final(self).spec_status(j) == (
                if deps@.contains(j) && old(self).spec_status(j) is Suspended {
                    TransactionStatus::ReadyToExecute(old(self).spec_status(j).spec_incarnation())
                } else {
                    old(self).spec_status(j)
                }),
            forall|j: TxnIndex|
                j < old(self).spec_block_size() ==> #[trigger] final(self).spec_deps(j) == old(self).spec_deps(j),
            final(self).spec_execution_idx() == seq_min_with(
                deps@,
                old(self).spec_execution_idx(),
            ),
            final(self).spec_validation_idx() == old(self).spec_validation_idx(),
            final(self).spec_num_active_tasks() == old(self).spec_num_active_tasks(),
            final(self).spec_done() == old(self).spec_done(),
    {
        let n = deps.len();
        let mut p: usize = 0;
        while p < n
            invariant
                self.wf(),
                n == deps@.len(),
                p <= n,
                self.spec_block_size() == old(self).spec_block_size(),
                forall|q: int|
                    0 <= q < n ==> (#[trigger] deps@[q]) < old(self).spec_block_size(),
                forall|j: TxnIndex|
                    j < old(self).spec_block_size() ==> #[trigger] self.spec_status(j) == (
                    if deps@.take(p as int).contains(j) && old(self).spec_status(j) is Suspended {
                        TransactionStatus::ReadyToExecute(
                            old(self).spec_status(j).spec_incarnation(),
                        )
                    } else {
                        old(self).spec_status(j)
                    }),
                forall|j: TxnIndex|
                    j < old(self).spec_block_size() ==> #[trigger] self.spec_deps(j) == old(self).spec_deps(j),
                self.spec_execution_idx() == seq_min_with(
                    deps@.take(p as int),
                    old(self).spec_execution_idx(),
                ),
                self.spec_validation_idx() == old(self).spec_validation_idx(),
                self.spec_num_active_tasks() == old(self).spec_num_active_tasks(),
                self.spec_done() == old(self).spec_done(),
            decreases n - p,
        {
            let j = deps[p];
            let ghost before = *self;
            match self.txn_status[j] {
                TransactionStatus::Suspended(i) => {
                    self.txn_status[j] = TransactionStatus::ReadyToExecute(i);
                },
                _ => {},
            }
            let ghost mid = *self;
            self.decrease_execution_idx(j);
            proof {
                assert(deps@.take(p + 1).drop_last() =~= deps@.take(p as int));
                assert(deps@.take(p + 1).last() == deps@[p as int]);
                assert forall|j2: TxnIndex|
                    j2 < old(self).spec_block_size() implies #[trigger] self.spec_status(j2) == (
                    if deps@.take(p + 1).contains(j2) && old(self).spec_status(j2) is Suspended {
                        TransactionStatus::ReadyToExecute(
                            old(self).spec_status(j2).spec_incarnation(),
                        )
                    } else {
                        old(self).spec_status(j2)
                    }) by {
                    assert(self.spec_status(j2) == mid.spec_status(j2));
                    assert(before.spec_status(j2) == (if deps@.take(p as int).contains(j2) && old(self).spec_status(j2) is Suspended {
                        TransactionStatus::ReadyToExecute(
                            old(self).spec_status(j2).spec_incarnation(),
                        )
                    } else {
                        old(self).spec_status(j2)
                    }));
                    if j2 != j {
                        assert(mid.spec_status(j2) == before.spec_status(j2));
                    }
                    if deps@.take(p + 1).contains(j2) {
                        let q = choose|q: int|
                            0 <= q < p + 1 && #[trigger] deps@.take(p + 1)[q] == j2;
                        if j2 != j {
                            assert(deps@.take(p as int)[q] == j2);
                            assert(deps@.take(p as int).contains(j2));
                        }
                    } else {
                        assert(!deps@.take(p as int).contains(j2)) by {
                            if deps@.take(p as int).contains(j2) {
                                let q = choose|q: int|
                                    0 <= q < p && #[trigger] deps@.take(p as int)[q] == j2;
                                assert(deps@.take(p + 1)[q] == j2);
                            }
                        }
                        assert(j2 != j) by {
                            if j2 == j {
                                assert(deps@.take(p + 1)[p as int] == j2);
                            }
                        }
                    }
                }
                assert forall|j2: TxnIndex|
                    j2 < old(self).spec_block_size() implies #[trigger] self.spec_deps(j2) == old(self).spec_deps(j2) by {
                    assert(self.spec_deps(j2) == mid.spec_deps(j2));
                    assert(mid.spec_deps(j2) == before.spec_deps(j2));
                    assert(before.spec_deps(j2) == old(self).spec_deps(j2));
                }
            }
            p += 1;
        }
        proof {
            assert(deps@.take(n as int) =~= deps@);
        }
    }

    /// Record that the incarnation of `txn_idx` finished executing: its
    /// status becomes `Executed`, its dependents are resumed, and unless the
    /// validation cursor already covers it, either the cursor is lowered (a
    /// fresh key was written) or the validation of this very incarnation is
    /// handed straight back.
    pub fn finish_execution(
        &mut self,
        txn_idx: TxnIndex,
        incarnation: Incarnation,
        wrote_new_path: bool,
    ) -> (r: SchedulerTask)
        requires
            old(self).wf(),
            txn_idx < old(self).spec_block_size(),
        ensures
            final(self).wf(),
            final(self).spec_block_size() == old(self).spec_block_size(),
            old(self).spec_status(txn_idx) != TransactionStatus::Executing(incarnation) ==> {
                &&& r is NoTask
                &&& final(self).spec_num_active_tasks() == crate::sync::wrap_dec(
                    old(self).spec_num_active_tasks(),
                )
                &&& forall|j: TxnIndex|
                    j < old(self).spec_block_size() ==> #[trigger] final(self).spec_status(j)
                        == old(self).spec_status(j)
                &&& forall|j: TxnIndex|
                    j < old(self).spec_block_size() ==> #[trigger] final(self).spec_deps(j)
                        == old(self).spec_deps(j)
                &&& final(self).spec_execution_idx() == old(self).spec_execution_idx()
                &&& final(self).spec_validation_idx() == old(self).spec_validation_idx()
                &&& final(self).spec_done() == old(self).spec_done()
            },
            old(self).spec_status(txn_idx) == TransactionStatus::Executing(incarnation) ==> final(self).spec_status(txn_idx) == TransactionStatus::Executed(incarnation),
            old(self).spec_status(txn_idx) == TransactionStatus::Executing(incarnation)
                ==> forall|j: TxnIndex|
                j < old(self).spec_block_size() && j != txn_idx ==> #[trigger] final(self).spec_status(j) == (if old(self).spec_deps(txn_idx).contains(j) && old(self).spec_status(j) is Suspended {
                    TransactionStatus::ReadyToExecute(old(self).spec_status(j).spec_incarnation())
                } else {
                    old(self).spec_status(j)
                }),
            old(self).spec_status(txn_idx) == TransactionStatus::Executing(incarnation) ==> final(self).spec_deps(txn_idx) == Seq::<TxnIndex>::empty(),
            old(self).spec_status(txn_idx) == TransactionStatus::Executing(incarnation)
                ==> forall|j: TxnIndex|
                j < old(self).spec_block_size() && j != txn_idx ==> #[trigger] final(self).spec_deps(j) == old(self).spec_deps(j),
            old(self).spec_status(txn_idx) == TransactionStatus::Executing(incarnation) ==> final(self).spec_execution_idx() == seq_min_with(
                old(self).spec_deps(txn_idx),
                old(self).spec_execution_idx(),
            ),
            final(self).spec_done() == old(self).spec_done(),
            match r {
                SchedulerTask::Validation(v) => v == (txn_idx, incarnation) && final(self).spec_num_active_tasks() == old(self).spec_num_active_tasks(),
                SchedulerTask::NoTask => final(self).spec_num_active_tasks()
                    == crate::sync::wrap_dec(old(self).spec_num_active_tasks()),
                _ => false,
            },
            old(self).spec_status(txn_idx) == TransactionStatus::Executing(incarnation) ==> ({
                if old(self).spec_validation_idx() > txn_idx {
                    if wrote_new_path {
                        &&& r is NoTask
                        &&& final(self).spec_validation_idx() == txn_idx
                        &&& final(self).spec_num_active_tasks() == crate::sync::wrap_dec(
                            old(self).spec_num_active_tasks(),
                        )
                    } else {
                        &&& r matches SchedulerTask::Validation(v) && v == (txn_idx, incarnation)
                        &&& final(self).spec_validation_idx() == old(self).spec_validation_idx()
                        &&& final(self).spec_num_active_tasks() == old(self).spec_num_active_tasks()
                    }
                } else {
                    &&& r is NoTask
                    &&& final(self).spec_validation_idx() == old(self).spec_validation_idx()
                    &&& final(self).spec_num_active_tasks() == crate::sync::wrap_dec(
                        old(self).spec_num_active_tasks(),
                    )
                }
            }),
    {
        let proceed = match self.txn_status[txn_idx] {
            TransactionStatus::Executing(i) => i == incarnation,
            _ => false,
        };
        if !proceed {
            self.num_active_tasks.decrement();
            return SchedulerTask::NoTask;
        }
        self.txn_status[txn_idx] = TransactionStatus::Executed(incarnation);
        let mut deps: Vec<TxnIndex> = Vec::new();
        let slot = &mut self.txn_dependency[txn_idx];
        core::mem::swap(&mut deps, slot);
        let ghost s1 = *self;
        proof {
            assert(deps@ == old(self).spec_deps(txn_idx));
            assert(s1.spec_deps(txn_idx) == Seq::<TxnIndex>::empty());
            assert forall|q: int| 0 <= q < deps@.len() implies (#[trigger] deps@[q]) < s1
                .spec_block_size() by {
                assert(old(self).txn_dependency@[txn_idx as int]@[q] < old(self).spec_block_size());
            }
        }
        self.resume_dependencies(&deps);
        let ghost s2 = *self;
        proof {
            assert forall|j: TxnIndex|
                j < old(self).spec_block_size() && j != txn_idx implies #[trigger] s2.spec_status(
                j,
            ) == (if old(self).spec_deps(txn_idx).contains(j) && old(self).spec_status(j)
                is Suspended {
                TransactionStatus::ReadyToExecute(old(self).spec_status(j).spec_incarnation())
            } else {
                old(self).spec_status(j)
            }) by {
                assert(s1.spec_status(j) == old(self).spec_status(j));
            }
            assert(s2.spec_status(txn_idx) == TransactionStatus::Executed(incarnation));
            assert forall|j: TxnIndex|
                j < old(self).spec_block_size() && j != txn_idx implies #[trigger] s2.spec_deps(j)
                    == old(self).spec_deps(j) by {
                assert(s1.spec_deps(j) == old(self).spec_deps(j));
            }
        }
        if self.validation_idx.load() > txn_idx {
            if wrote_new_path {
                self.decrease_validation_idx(txn_idx);
                let ghost s3 = *self;
                self.num_active_tasks.decrement();
                proof {
                    lemma_finish_execution_frame(old(self), &s2, &s3, final(self), txn_idx);
                }
                return SchedulerTask::NoTask;
            } else {
                proof {
                    lemma_finish_execution_frame(old(self), &s2, &s2, final(self), txn_idx);
                }
                return SchedulerTask::Validation((txn_idx, incarnation));
            }
        }
        let ghost s3 = *self;
        self.num_active_tasks.decrement();
        proof {
            lemma_finish_execution_frame(old(self), &s3, &s3, final(self), txn_idx);
        }
        SchedulerTask::NoTask
    }

    /// Move `txn_idx` from `Executed(incarnation)` to `Aborting`; refuses
    /// when a later incarnation has already replaced that one.
    pub fn abort(&mut self, txn_idx: TxnIndex, incarnation: Incarnation) -> (r: bool)
        requires
            old(self).wf(),
            txn_idx < old(self).spec_block_size(),
        ensures
            final(self).wf(),
            final(self).spec_block_size() == old(self).spec_block_size(),
            r == (old(self).spec_status(txn_idx) == TransactionStatus::Executed(incarnation)),
            r ==> final(self).spec_status(txn_idx) == TransactionStatus::Aborting(incarnation)
                && status_changed_only(old(self), final(self), txn_idx),
            !r ==> *final(self) == *old(self),
    {
        match self.txn_status[txn_idx] {
            TransactionStatus::Executed(i) => {
                if i == incarnation {
                    self.txn_status[txn_idx] = TransactionStatus::Aborting(incarnation);
                    return true;
                }
                false
            },
            _ => false,
        }
    }

    /// Move `txn_idx` from `Aborting(i)` to `ReadyToExecute(i + 1)`.
    fn set_ready_status(&mut self, txn_idx: TxnIndex)
        requires
            old(self).wf(),
            txn_idx < old(self).spec_block_size(),
        ensures
            final(self).wf(),
            match old(self).spec_status(txn_idx) {
                TransactionStatus::Aborting(i) => if i < usize::MAX {
                    final(self).spec_status(txn_idx) == TransactionStatus::ReadyToExecute(
                        (i + 1) as usize,
                    ) && status_changed_only(old(self), final(self), txn_idx)
                } else {
                    *final(self) == *old(self)
                },
                _ => *final(self) == *old(self),
            },
    {
        match self.txn_status[txn_idx] {
            TransactionStatus::Aborting(i) => {
                if i < usize::MAX {
                    self.txn_status[txn_idx] = TransactionStatus::ReadyToExecute(i + 1);
                }
            },
            _ => {},
        }
    }

    /// Record the end of a validation. On an abort the next incarnation is
    /// made ready, the validation cursor is pulled back behind the aborted
    /// transaction, and if the execution cursor has already passed it the
    /// new incarnation is handed straight back as an execution task.
    pub fn finish_validation(&mut self, txn_idx: TxnIndex, aborted: bool) -> (r: SchedulerTask)
        requires
            old(self).wf(),
            txn_idx < old(self).spec_block_size(),
        ensures
            final(self).wf(),
            final(self).spec_block_size() == old(self).spec_block_size(),
            forall|j: TxnIndex|
                j < old(self).spec_block_size() ==> #[trigger] final(self).spec_deps(j) == old(self).spec_deps(j),
            final(self).spec_done() == old(self).spec_done(),
            match r {
                SchedulerTask::Execution(v) => v.0 == txn_idx && final(self).spec_num_active_tasks() == old(self).spec_num_active_tasks(),
                SchedulerTask::NoTask => final(self).spec_num_active_tasks()
                    == crate::sync::wrap_dec(old(self).spec_num_active_tasks()),
                _ => false,
            },
            forall|j: TxnIndex|
                j < old(self).spec_block_size() && j != txn_idx ==> #[trigger] final(self).spec_status(j) == old(self).spec_status(j),
            match old(self).spec_status(txn_idx) {
                TransactionStatus::Aborting(i2) => final(self).spec_status(txn_idx)
                    == TransactionStatus::Aborting(i2) || (i2 < usize::MAX && (final(self).spec_status(txn_idx) == TransactionStatus::ReadyToExecute((i2 + 1) as usize)
                    || final(self).spec_status(txn_idx) == TransactionStatus::Executing(
                    (i2 + 1) as usize,
                ))),
                TransactionStatus::ReadyToExecute(j3) => final(self).spec_status(txn_idx) == old(self).spec_status(txn_idx) || final(self).spec_status(txn_idx)
                    == TransactionStatus::Executing(j3),
                _ => final(self).spec_status(txn_idx) == old(self).spec_status(txn_idx),
            },
            !aborted ==> r is NoTask && (forall|j: TxnIndex|
                j < old(self).spec_block_size() ==> #[trigger] final(self).spec_status(j) == old(self).spec_status(j)) && final(self).spec_num_active_tasks() == crate::sync::wrap_dec(
                old(self).spec_num_active_tasks(),
            ) && final(self).spec_validation_idx() == old(self).spec_validation_idx() && final(self).spec_execution_idx() == old(self).spec_execution_idx(),
            aborted ==> match old(self).spec_status(txn_idx) {
                TransactionStatus::Aborting(i) => i < usize::MAX ==> {
                    &&& final(self).spec_validation_idx() == (if txn_idx + 1 < old(self).spec_validation_idx() {
                        (txn_idx + 1) as usize
                    } else {
                        old(self).spec_validation_idx()
                    })
                    &&& final(self).spec_execution_idx() == old(self).spec_execution_idx()
                    &&& forall|j: TxnIndex|
                        j < old(self).spec_block_size() && j != txn_idx ==> #[trigger] final(self).spec_status(j) == old(self).spec_status(j)
                    &&& if old(self).spec_execution_idx() > txn_idx {
                        &&& r matches SchedulerTask::Execution(v) && v == (
                            txn_idx,
                            (i + 1) as usize,
                        )
                        &&& final(self).spec_status(txn_idx) == TransactionStatus::Executing(
                            (i + 1) as usize,
                        )
                        &&& final(self).spec_num_active_tasks() == old(self).spec_num_active_tasks()
                    } else {
                        &&& r is NoTask
                        &&& final(self).spec_status(txn_idx) == TransactionStatus::ReadyToExecute(
                            (i + 1) as usize,
                        )
                        &&& final(self).spec_num_active_tasks() == crate::sync::wrap_dec(
                            old(self).spec_num_active_tasks(),
                        )
                    }
                },
                _ => true,
            },
    {
        if aborted {
            self.set_ready_status(txn_idx);
            let ghost s1 = *self;
            self.decrease_validation_idx(txn_idx + 1);
            let ghost s2 = *self;
            proof {
                assert forall|j: TxnIndex|
                    j < old(self).spec_block_size() implies #[trigger] s2.spec_deps(j) == old(self).spec_deps(j) by {
                    assert(s1.spec_deps(j) == old(self).spec_deps(j));
                }
                assert forall|j: TxnIndex|
                    j < old(self).spec_block_size() && j != txn_idx implies #[trigger] s2
                    .spec_status(j) == old(self).spec_status(j) by {
                    assert(s2.spec_status(j) == s1.spec_status(j));
                    assert(s1.spec_status(j) == old(self).spec_status(j));
                }
            }
            if self.execution_idx.load() > txn_idx {
                match self.try_incarnate(txn_idx) {
                    Some(incarnation) => {
                        proof {
                            assert forall|j: TxnIndex|
                                j < old(self).spec_block_size() implies #[trigger] self.spec_deps(
                                j,
                            ) == s2.spec_deps(j) by {}
                            assert forall|j: TxnIndex|
                                j < old(self).spec_block_size() && j != txn_idx
                                implies #[trigger] self.spec_status(j) == s2.spec_status(j) by {}
                        }
                        return SchedulerTask::Execution((txn_idx, incarnation));
                    },
                    None => {},
                }
            }
            let ghost s3 = *self;
            self.num_active_tasks.decrement();
            proof {
                assert forall|j: TxnIndex|
                    j < old(self).spec_block_size() implies #[trigger] self.spec_deps(j) == old(self).spec_deps(j) by {
                    assert(self.spec_deps(j) == s3.spec_deps(j));
                    assert(s3.spec_deps(j) == s2.spec_deps(j));
                }
                assert forall|j: TxnIndex|
                    j < old(self).spec_block_size() && j != txn_idx implies #[trigger] self
                    .spec_status(j) == old(self).spec_status(j) by {
                    assert(self.spec_status(j) == s3.spec_status(j));
                    assert(s3.spec_status(j) == s2.spec_status(j));
                }
            }
            return SchedulerTask::NoTask;
        }
        self.num_active_tasks.decrement();
        proof {
            assert forall|j: TxnIndex|
                j < old(self).spec_block_size() implies #[trigger] self.spec_deps(j) == old(self).spec_deps(j) by {}
            assert forall|j: TxnIndex|
                j < old(self).spec_block_size() implies #[trigger] self.spec_status(j) == old(self).spec_status(j) by {}
        }
        SchedulerTask::NoTask
    }
}

/// Everything of the scheduler but the execution cursor and the decrease
/// epoch is the same.
pub open spec fn unchanged_but_exec_cursor(a: &Scheduler, b: &Scheduler) -> bool {
    &&& b.spec_block_size() == a.spec_block_size()
    &&& b.spec_validation_idx() == a.spec_validation_idx()
    &&& b.spec_num_active_tasks() == a.spec_num_active_tasks()
    &&& b.spec_done() == a.spec_done()
    &&& forall|i: TxnIndex|
        i < a.spec_block_size() ==> #[trigger] b.spec_status(i) == a.spec_status(i)
    &&& forall|i: TxnIndex| i < a.spec_block_size() ==> #[trigger] b.spec_deps(i) == a.spec_deps(i)
}

/// Everything of the scheduler but the validation cursor and the decrease
/// epoch is the same.
pub open spec fn unchanged_but_val_cursor(a: &Scheduler, b: &Scheduler) -> bool {
    &&& b.spec_block_size() == a.spec_block_size()
    &&& b.spec_execution_idx() == a.spec_execution_idx()
    &&& b.spec_num_active_tasks() == a.spec_num_active_tasks()
    &&& b.spec_done() == a.spec_done()
    &&& forall|i: TxnIndex|
        i < a.spec_block_size() ==> #[trigger] b.spec_status(i) == a.spec_status(i)
    &&& forall|i: TxnIndex| i < a.spec_block_size() ==> #[trigger] b.spec_deps(i) == a.spec_deps(i)
}

/// Everything of the scheduler but the done flag is the same.
pub open spec fn unchanged_but_done(a: &Scheduler, b: &Scheduler) -> bool {
    &&& b.spec_block_size() == a.spec_block_size()
    &&& b.spec_execution_idx() == a.spec_execution_idx()
    &&& b.spec_validation_idx() == a.spec_validation_idx()
    &&& b.spec_decrease_cnt() == a.spec_decrease_cnt()
    &&& b.spec_num_active_tasks() == a.spec_num_active_tasks()
    &&& forall|i: TxnIndex|
        i < a.spec_block_size() ==> #[trigger] b.spec_status(i) == a.spec_status(i)
    &&& forall|i: TxnIndex| i < a.spec_block_size() ==> #[trigger] b.spec_deps(i) == a.spec_deps(i)
}

/// Carry the per-transaction status and dependency facts established after
/// the resume step of `finish_execution` through the later steps, which do
/// not touch statuses or dependency lists.
proof fn lemma_finish_execution_frame(
    o: &Scheduler,
    s2: &Scheduler,
    s3: &Scheduler,
    fin: &Scheduler,
    txn_idx: TxnIndex,
)
    requires
        s2.spec_block_size() == o.spec_block_size(),
        s3.spec_block_size() == o.spec_block_size(),
        fin.spec_block_size() == o.spec_block_size(),
        forall|j: TxnIndex|
            j < o.spec_block_size() ==> #[trigger] s3.spec_status(j) == s2.spec_status(j),
        forall|j: TxnIndex|
            j < o.spec_block_size() ==> #[trigger] s3.spec_deps(j) == s2.spec_deps(j),
        forall|j: TxnIndex|
            j < o.spec_block_size() ==> #[trigger] fin.spec_status(j) == s3.spec_status(j),
        forall|j: TxnIndex|
            j < o.spec_block_size() ==> #[trigger] fin.spec_deps(j) == s3.spec_deps(j),
    ensures
        forall|j: TxnIndex|
            j < o.spec_block_size() ==> #[trigger] fin.spec_status(j) == s2.spec_status(j),
        forall|j: TxnIndex|
            j < o.spec_block_size() ==> #[trigger] fin.spec_deps(j) == s2.spec_deps(j),
{
}

/// Only the status of `t` (and no cursor, count or dependency list) differs.
pub open spec fn status_changed_only(a: &Scheduler, b: &Scheduler, t: TxnIndex) -> bool {
    &&& b.spec_block_size() == a.spec_block_size()
    &&& b.spec_execution_idx() == a.spec_execution_idx()
    &&& b.spec_validation_idx() == a.spec_validation_idx()
    &&& b.spec_decrease_cnt() == a.spec_decrease_cnt()
    &&& b.spec_num_active_tasks() == a.spec_num_active_tasks()
    &&& b.spec_done() == a.spec_done()
    &&& forall|i: TxnIndex|
        i < a.spec_block_size() && i != t ==> #[trigger] b.spec_status(i) == a.spec_status(i)
    &&& forall|i: TxnIndex| i < a.spec_block_size() ==> #[trigger] b.spec_deps(i) == a.spec_deps(i)
}

} // verus!
