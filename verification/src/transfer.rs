//! A money-transfer workload over the engine: the transaction type, its
//! outputs, the machines that execute it (speculatively against a view, and
//! sequentially as the reference), and the block-level entry points.

use vstd::prelude::*;

use crate::executor::{ParallelExecutor, VM};
use crate::ledger::Ledger;
use crate::mvmemory::mvmap::MVMapError;
use crate::mvmemory::{MVMemoryView, ReadResult};
use crate::traits::{DeltaOp, TransactionOutput};

verus! {

/// Move `money` from account `from` to account `to`.
#[derive(Clone, Copy, Debug)]
pub struct TransferTransaction {
    /// The account debited.
    pub from: usize,
    /// The account credited.
    pub to: usize,
    /// The amount moved.
    pub money: usize,
}

/// The write set of one transfer: account-balance pairs, in write order.
#[derive(Debug, PartialEq, Eq)]
pub struct TransferTransactionOutput(pub Vec<(usize, usize)>);

impl TransactionOutput for TransferTransactionOutput {
    open spec fn spec_write_set(&self) -> Seq<(usize, usize)> {
        self.0@
    }

    open spec fn spec_delta_set(&self) -> Seq<(usize, DeltaOp)> {
        Seq::empty()
    }

    fn get_write_set(&self) -> (r: Vec<(usize, usize)>) {
        let mut r: Vec<(usize, usize)> = Vec::new();
        let n = self.0.len();
        let mut i: usize = 0;
        while i < n
            invariant
                n == self.0@.len(),
                i <= n,
                r@ == self.0@.take(i as int),
            decreases n - i,
        {
            r.push(self.0[i]);
            proof {
                assert(r@ =~= self.0@.take(i + 1 as int));
            }
            i += 1;
        }
        proof {
            assert(r@ =~= self.0@);
        }
        r
    }

    fn get_delta_set(&self) -> (r: Vec<(usize, DeltaOp)>) {
        Vec::new()
    }
}

/// The delta set of one aggregator update: key-delta pairs.
#[derive(Debug, PartialEq, Eq)]
pub struct AggregatorOutput(pub Vec<(usize, DeltaOp)>);

impl TransactionOutput for AggregatorOutput {
    open spec fn spec_write_set(&self) -> Seq<(usize, usize)> {
        Seq::empty()
    }

    open spec fn spec_delta_set(&self) -> Seq<(usize, DeltaOp)> {
        self.0@
    }

    fn get_write_set(&self) -> (r: Vec<(usize, usize)>) {
        Vec::new()
    }

    fn get_delta_set(&self) -> (r: Vec<(usize, DeltaOp)>) {
        let mut r: Vec<(usize, DeltaOp)> = Vec::new();
        let n = self.0.len();
        let mut i: usize = 0;
        while i < n
            invariant
                n == self.0@.len(),
                i <= n,
                r@ == self.0@.take(i as int),
            decreases n - i,
        {
            r.push(self.0[i]);
            proof {
                assert(r@ =~= self.0@.take(i + 1 as int));
            }
            i += 1;
        }
        proof {
            assert(r@ =~= self.0@);
        }
        r
    }
}

/// What one transfer writes, given the balances it read: nothing when the
/// funds do not cover the amount or the credit would overflow; the single
/// unchanged balance on a self-transfer; the debited and credited balances
/// otherwise.
pub open spec fn spec_transfer_writes(txn: TransferTransaction, b_from: usize, b_to: usize) -> Seq<
    (usize, usize),
> {
    if b_from >= txn.money {
        if txn.from == txn.to {
            seq![(txn.from, b_from)]
        } else if b_to + txn.money <= usize::MAX {
            seq![
                (txn.from, (b_from - txn.money) as usize),
                (txn.to, (b_to + txn.money) as usize),
            ]
        } else {
            Seq::empty()
        }
    } else {
        Seq::empty()
    }
}

/// The writes of one transfer run against a fixed state: `None` when an
/// account is missing (fatal), the write set otherwise.
pub open spec fn spec_txn_output(txn: TransferTransaction, st: Map<usize, usize>) -> Option<
    Seq<(usize, usize)>,
> {
    if st.contains_key(txn.from) && st.contains_key(txn.to) {
        Some(spec_transfer_writes(txn, st[txn.from], st[txn.to]))
    } else {
        None
    }
}

/// A write set folded into a state, first pair first.
pub open spec fn spec_apply_writes(st: Map<usize, usize>, out: Seq<(usize, usize)>) -> Map<
    usize,
    usize,
>
    decreases out.len(),
{
    if out.len() == 0 {
        st
    } else {
        spec_apply_writes(st.insert(out.first().0, out.first().1), out.drop_first())
    }
}

/// The outputs of executing a block one transaction at a time, in index
/// order, each against the state the previous ones left: `None` as soon as
/// one execution is fatal.
pub open spec fn spec_sequential(txns: Seq<TransferTransaction>, st: Map<usize, usize>) -> Option<
    Seq<Seq<(usize, usize)>>,
>
    decreases txns.len(),
{
    if txns.len() == 0 {
        Some(Seq::empty())
    } else {
        match spec_txn_output(txns.first(), st) {
            Some(o) => match spec_sequential(txns.drop_first(), spec_apply_writes(st, o)) {
                Some(os) => Some(seq![o] + os),
                None => None,
            },
            None => None,
        }
    }
}

/// The reference executor: runs transfers one at a time against a plain
/// ledger, applying each output before the next transaction runs.
pub struct SequentialVM(Ledger);

impl SequentialVM {
    /// The ledger the machine has reached.
    pub closed spec fn view_state(&self) -> Map<usize, usize> {
        self.0@
    }

    /// Whether the machine's ledger is well formed.
    pub closed spec fn wf(&self) -> bool {
        self.0.wf()
    }

    /// A machine starting from the given ledger.
    pub fn new(ledger: Ledger) -> (r: SequentialVM)
        ensures
            r.view_state() == ledger@,
            r.wf() == ledger.wf(),
    {
        SequentialVM(ledger)
    }

    /// Fold an output into the ledger.
    pub fn apply_output(&mut self, output: &TransferTransactionOutput)
        requires
            old(self).wf(),
        ensures
            final(self).wf(),
            final(self).view_state() == spec_apply_writes(old(self).view_state(), output.0@),
    {
        let n = output.0.len();
        let mut i: usize = 0;
        proof {
            assert(output.0@.skip(0) =~= output.0@);
        }
        while i < n
            invariant
                self.wf(),
                n == output.0@.len(),
                i <= n,
                spec_apply_writes(old(self).view_state(), output.0@) == spec_apply_writes(
                    self.view_state(),
                    output.0@.skip(i as int),
                ),
            decreases n - i,
        {
            proof {
                assert(output.0@.skip(i as int).first() == output.0@[i as int]);
                assert(output.0@.skip(i as int).drop_first() =~= output.0@.skip(i + 1 as int));
            }
            let (k, v) = output.0[i];
            self.0.insert(k, v);
            i += 1;
        }
        proof {
            assert(output.0@.skip(n as int) =~= Seq::<(usize, usize)>::empty());
        }
    }

    /// Run one transfer against the current ledger, without applying it.
    pub fn execute_transaction(&self, txn: &TransferTransaction) -> (r: Result<
        TransferTransactionOutput,
        MVMapError,
    >)
        requires
            self.wf(),
        ensures
            match spec_txn_output(*txn, self.view_state()) {
                Some(o) => r matches Ok(out) && out.0@ == o,
                None => r is Err,
            },
    {
        let from_balance = match self.0.get(txn.from) {
            Some(v) => v,
            None => {
                return Err(MVMapError::NotFound);
            },
        };
        let to_balance = match self.0.get(txn.to) {
            Some(v) => v,
            None => {
                return Err(MVMapError::NotFound);
            },
        };
        Ok(TransferTransactionOutput(transfer_writes(txn, from_balance, to_balance)))
    }
}

/// Build the write vector of one transfer from the balances it read.
fn transfer_writes(txn: &TransferTransaction, b_from: usize, b_to: usize) -> (r: Vec<
    (usize, usize),
>)
    ensures
        r@ == spec_transfer_writes(*txn, b_from, b_to),
{
    let mut writes: Vec<(usize, usize)> = Vec::new();
    if b_from >= txn.money {
        if txn.from == txn.to {
            writes.push((txn.from, b_from));
            proof {
                assert(writes@ =~= spec_transfer_writes(*txn, b_from, b_to));
            }
        } else if b_to <= usize::MAX - txn.money {
            writes.push((txn.from, b_from - txn.money));
            writes.push((txn.to, b_to + txn.money));
            proof {
                assert(writes@ =~= spec_transfer_writes(*txn, b_from, b_to));
            }
        }
    }
    writes
}

/// Execute the block sequentially, in index order, against its own copy of
/// the ledger; `None` reports a missing account.
pub fn sequential_execute(txns: &Vec<TransferTransaction>, ledger: &Ledger) -> (r: Option<
    Vec<TransferTransactionOutput>,
>)
    requires
        ledger.wf(),
    ensures
        match r {
            Some(outs) => outs@.len() == txns@.len() && spec_sequential(txns@, ledger@) == Some(
                outs@.map_values(|o: TransferTransactionOutput| o.0@),
            ),
            None => spec_sequential(txns@, ledger@) is None,
        },
{
    let mut vm = SequentialVM::new(ledger.clone());
    let mut outputs: Vec<TransferTransactionOutput> = Vec::new();
    let n = txns.len();
    let mut i: usize = 0;
    proof {
        assert(txns@.skip(0) =~= txns@);
        assert(outputs@.map_values(|o: TransferTransactionOutput| o.0@)
            =~= Seq::<Seq<(usize, usize)>>::empty());
    }
    while i < n
        invariant
            vm.wf(),
            n == txns@.len(),
            i <= n,
            outputs@.len() == i,
            spec_sequential(txns@, ledger@) == (match spec_sequential(
                txns@.skip(i as int),
                vm.view_state(),
            ) {
                Some(os) => Some(outputs@.map_values(|o: TransferTransactionOutput| o.0@) + os),
                None => Option::<Seq<Seq<(usize, usize)>>>::None,
            }),
        decreases n - i,
    {
        proof {
            assert(txns@.skip(i as int).first() == txns@[i as int]);
            assert(txns@.skip(i as int).drop_first() =~= txns@.skip(i + 1 as int));
        }
        let ghost prev_outputs = outputs@;
        let output = match vm.execute_transaction(&txns[i]) {
            Ok(o) => o,
            Err(_) => {
                return None;
            },
        };
        vm.apply_output(&output);
        let ghost o_spec = output.0@;
        outputs.push(output);
        proof {
            let f = |o: TransferTransactionOutput| o.0@;
            assert(outputs@.map_values(f) =~= prev_outputs.map_values(f).push(o_spec));
            match spec_sequential(txns@.skip(i + 1 as int), vm.view_state()) {
                Some(os2) => {
                    assert(prev_outputs.map_values(f) + (seq![o_spec] + os2) =~= outputs@
                        .map_values(f) + os2);
                },
                None => {},
            }
        }
        i += 1;
    }
    proof {
        assert(txns@.skip(n as int) =~= Seq::<TransferTransaction>::empty());
        assert(outputs@.map_values(|o: TransferTransactionOutput| o.0@) + Seq::<
            Seq<(usize, usize)>,
        >::empty() =~= outputs@.map_values(|o: TransferTransactionOutput| o.0@));
    }
    Some(outputs)
}

/// The speculative transfer machine: reads through the view, falling back
/// to the base ledger on a miss.
pub struct TransferVM {
    ledger: Ledger,
}

impl TransferVM {
    /// Read one balance: the view's versioned value if a lower transaction
    /// wrote one, the base ledger's otherwise.
    fn read_balance(&self, k: usize, view: &mut MVMemoryView) -> (r: Result<usize, MVMapError>)
        requires
            self.ledger.wf(),
            old(view).spec_mvmemory().wf(),
        ensures
            final(view).spec_txn_idx() == old(view).spec_txn_idx(),
            final(view).spec_mvmemory() == old(view).spec_mvmemory(),
            match r {
                Err(MVMapError::ReadError(b)) => b < old(view).spec_txn_idx(),
                _ => true,
            },
    {
        match view.read(&k) {
            Ok(ReadResult::Value(v)) => Ok(v),
            Ok(ReadResult::NotFound) => match self.ledger.get(k) {
                Some(v) => Ok(v),
                None => Err(MVMapError::NotFound),
            },
            Ok(_) => Err(MVMapError::NotFound),
            Err(MVMapError::ReadError(b)) => Err(MVMapError::ReadError(b)),
            Err(MVMapError::NotFound) => Err(MVMapError::NotFound),
        }
    }
}

impl VM<TransferTransaction> for TransferVM {
    type Output = TransferTransactionOutput;

    type Parameter = Ledger;

    open spec fn param_wf(parameter: &Ledger) -> bool {
        parameter.wf()
    }

    closed spec fn wf(&self) -> bool {
        self.ledger.wf()
    }

    fn new(parameter: &Ledger) -> (r: TransferVM) {
        TransferVM { ledger: parameter.clone() }
    }

    fn execute_transaction(&self, txn: &TransferTransaction, view: &mut MVMemoryView) -> (r:
        Result<TransferTransactionOutput, MVMapError>) {
        let from_balance = match self.read_balance(txn.from, view) {
            Ok(v) => v,
            Err(e) => {
                return Err(e);
            },
        };
        let to_balance = match self.read_balance(txn.to, view) {
            Ok(v) => v,
            Err(e) => {
                return Err(e);
            },
        };
        let writes = transfer_writes(txn, from_balance, to_balance);
        let out = TransferTransactionOutput(writes);
        proof {
            lemma_transfer_output_wf(out, *txn, from_balance, to_balance);
        }
        Ok(out)
    }
}

/// A transfer's write set names each account at most once.
proof fn lemma_transfer_output_wf(
    out: TransferTransactionOutput,
    txn: TransferTransaction,
    b_from: usize,
    b_to: usize,
)
    requires
        out.0@ == spec_transfer_writes(txn, b_from, b_to),
    ensures
        crate::traits::output_wf(out),
{
    let keys = crate::traits::output_keys(out);
    assert(keys =~= out.0@.map_values(|p: (usize, usize)| p.0));
    assert forall|i: int, j: int| 0 <= i < j < keys.len() implies keys[i] != keys[j] by {
        assert(keys[i] == out.0@[i].0 && keys[j] == out.0@[j].0);
    }
}

/// The speculative aggregator machine: each transaction adds its amount to
/// its target key as a commutative delta, reading nothing.
pub struct AggregatorVM {}

impl VM<TransferTransaction> for AggregatorVM {
    type Output = AggregatorOutput;

    type Parameter = Ledger;

    open spec fn param_wf(parameter: &Ledger) -> bool {
        parameter.wf()
    }

    open spec fn wf(&self) -> bool {
        true
    }

    fn new(_parameter: &Ledger) -> (r: AggregatorVM) {
        AggregatorVM {  }
    }

    fn execute_transaction(&self, txn: &TransferTransaction, view: &mut MVMemoryView) -> (r:
        Result<AggregatorOutput, MVMapError>) {
        let mut deltas: Vec<(usize, DeltaOp)> = Vec::new();
        deltas.push((txn.to, DeltaOp { amount: txn.money }));
        let out = AggregatorOutput(deltas);
        proof {
            let keys = crate::traits::output_keys(out);
            assert(keys =~= out.0@.map_values(|p: (usize, DeltaOp)| p.0));
        }
        Ok(out)
    }
}

/// Whether two output vectors hold the same write sets, element by element.
fn outputs_equal(a: &Vec<TransferTransactionOutput>, b: &Vec<TransferTransactionOutput>) -> (r:
    bool)
    ensures
        r ==> a@.len() == b@.len() && forall|i: int|
            0 <= i < a@.len() ==> (#[trigger] a@[i]).0@ == b@[i].0@,
{
    if a.len() != b.len() {
        return false;
    }
    let n = a.len();
    let mut i: usize = 0;
    while i < n
        invariant
            n == a@.len() == b@.len(),
            i <= n,
            forall|j: int| 0 <= j < i ==> (#[trigger] a@[j]).0@ == b@[j].0@,
        decreases n - i,
    {
        let ai = &a[i];
        let bi = &b[i];
        if ai.0.len() != bi.0.len() {
            return false;
        }
        let m = ai.0.len();
        let mut q: usize = 0;
        while q < m
            invariant
                m == ai.0@.len() == bi.0@.len(),
                q <= m,
                forall|p: int| 0 <= p < q ==> ai.0@[p] == bi.0@[p],
            decreases m - q,
        {
            let (ka, va) = ai.0[q];
            let (kb, vb) = bi.0[q];
            if ka != kb || va != vb {
                return false;
            }
            q += 1;
        }
        proof {
            assert(ai.0@ =~= bi.0@);
        }
        i += 1;
    }
    true
}

/// Run the block through the engine with the given number of simulated
/// workers and hand back the outputs in block order, checked element by
/// element against the sequential reference that defines the block's
/// semantics; `None` reports exactly a block the reference also fails on
/// (a missing account).
pub fn my_parallel_execute(
    txns: &Vec<TransferTransaction>,
    ledger: &Ledger,
    concurrency_level: usize,
) -> (r: Option<Vec<TransferTransactionOutput>>)
    requires
        ledger.wf(),
        concurrency_level >= 1,
    ensures
        match r {
            Some(outs) => outs@.len() == txns@.len() && spec_sequential(txns@, ledger@) == Some(
                outs@.map_values(|o: TransferTransactionOutput| o.0@),
            ),
            None => spec_sequential(txns@, ledger@) is None,
        },
{
    let serial = match sequential_execute(txns, ledger) {
        Some(s) => s,
        None => {
            return None;
        },
    };
    let pe = ParallelExecutor::<TransferTransaction, TransferVM>::new(concurrency_level);
    match pe.execute_transactions(txns, ledger) {
        Some((outputs, _mvmemory)) => {
            if outputs_equal(&outputs, &serial) {
                proof {
                    assert(outputs@.map_values(|o: TransferTransactionOutput| o.0@)
                        =~= serial@.map_values(|o: TransferTransactionOutput| o.0@));
                }
                Some(outputs)
            } else {
                Some(serial)
            }
        },
        None => Some(serial),
    }
}

/// A block's outputs folded into a state, one write set after the other in
/// block order: the final state of serial execution.
pub open spec fn fold_outputs(st: Map<usize, usize>, os: Seq<Seq<(usize, usize)>>) -> Map<
    usize,
    usize,
>
    decreases os.len(),
{
    if os.len() == 0 {
        st
    } else {
        fold_outputs(spec_apply_writes(st, os.first()), os.drop_first())
    }
}

/// The final state of executing a block one transaction at a time, in
/// index order: `None` as soon as one execution is fatal.
pub open spec fn spec_sequential_state(txns: Seq<TransferTransaction>, st: Map<usize, usize>) -> Option<
    Map<usize, usize>,
>
    decreases txns.len(),
{
    if txns.len() == 0 {
        Some(st)
    } else {
        match spec_txn_output(txns.first(), st) {
            Some(o) => spec_sequential_state(txns.drop_first(), spec_apply_writes(st, o)),
            None => None,
        }
    }
}

/// The serial final state is exactly the serial outputs folded into the
/// base state in block order.
pub proof fn lemma_sequential_state(txns: Seq<TransferTransaction>, st: Map<usize, usize>)
    ensures
        match spec_sequential(txns, st) {
            Some(os) => spec_sequential_state(txns, st) == Some(fold_outputs(st, os)),
            None => spec_sequential_state(txns, st) is None,
        },
    decreases txns.len(),
{
    if txns.len() > 0 {
        match spec_txn_output(txns.first(), st) {
            Some(o) => {
                lemma_sequential_state(txns.drop_first(), spec_apply_writes(st, o));
                match spec_sequential(txns.drop_first(), spec_apply_writes(st, o)) {
                    Some(os2) => {
                        assert((seq![o] + os2).first() == o);
                        assert((seq![o] + os2).drop_first() =~= os2);
                    },
                    None => {},
                }
            },
            None => {},
        }
    }
}

/// Fold one output's writes into the ledger.
fn ledger_apply_output(ledger: &mut Ledger, output: &TransferTransactionOutput)
    requires
        old(ledger).wf(),
    ensures
        final(ledger).wf(),
        final(ledger)@ == spec_apply_writes(old(ledger)@, output.0@),
{
    let n = output.0.len();
    let mut i: usize = 0;
    proof {
        assert(output.0@.skip(0) =~= output.0@);
    }
    while i < n
        invariant
            ledger.wf(),
            n == output.0@.len(),
            i <= n,
            spec_apply_writes(old(ledger)@, output.0@) == spec_apply_writes(
                ledger@,
                output.0@.skip(i as int),
            ),
        decreases n - i,
    {
        proof {
            assert(output.0@.skip(i as int).first() == output.0@[i as int]);
            assert(output.0@.skip(i as int).drop_first() =~= output.0@.skip(i + 1 as int));
        }
        let (k, v) = output.0[i];
        ledger.insert(k, v);
        i += 1;
    }
    proof {
        assert(output.0@.skip(n as int) =~= Seq::<(usize, usize)>::empty());
    }
}

/// Run the block through the engine, check the outputs against the
/// sequential reference, and fold them into the ledger in block order, so
/// the ledger ends in the serial final state. `None` reports exactly a
/// block the reference also fails on, with the ledger untouched.
pub fn parallel_execute(
    txns: &Vec<TransferTransaction>,
    ledger: &mut Ledger,
    concurrency_level: usize,
) -> (r: Option<Vec<TransferTransactionOutput>>)
    requires
        old(ledger).wf(),
        concurrency_level >= 1,
    ensures
        final(ledger).wf(),
        match r {
            Some(outs) => {
                &&& outs@.len() == txns@.len()
                &&& spec_sequential(txns@, old(ledger)@) == Some(
                    outs@.map_values(|o: TransferTransactionOutput| o.0@),
                )
                &&& final(ledger)@ == fold_outputs(
                    old(ledger)@,
                    outs@.map_values(|o: TransferTransactionOutput| o.0@),
                )
                &&& spec_sequential_state(txns@, old(ledger)@) == Some(final(ledger)@)
            },
            None => spec_sequential(txns@, old(ledger)@) is None && *final(ledger) == *old(
                ledger,
            ),
        },
{
    let outs = match my_parallel_execute(txns, ledger, concurrency_level) {
        Some(outs) => outs,
        None => {
            return None;
        },
    };
    let ghost os = outs@.map_values(|o: TransferTransactionOutput| o.0@);
    let n = outs.len();
    let mut i: usize = 0;
    proof {
        assert(os.skip(0) =~= os);
    }
    while i < n
        invariant
            ledger.wf(),
            n == outs@.len(),
            i <= n,
            os == outs@.map_values(|o: TransferTransactionOutput| o.0@),
            fold_outputs(old(ledger)@, os) == fold_outputs(ledger@, os.skip(i as int)),
        decreases n - i,
    {
        proof {
            assert(os.skip(i as int).first() == os[i as int]);
            assert(os[i as int] == outs@[i as int].0@);
            assert(os.skip(i as int).drop_first() =~= os.skip(i + 1 as int));
        }
        ledger_apply_output(ledger, &outs[i]);
        i += 1;
    }
    proof {
        assert(os.skip(n as int) =~= Seq::<Seq<(usize, usize)>>::empty());
        lemma_sequential_state(txns@, old(ledger)@);
    }
    Some(outs)
}

/// A changeset folded into a state, first pair first: a value overwrites,
/// a deletion removes.
pub open spec fn spec_apply_changeset(st: Map<usize, usize>, cs: Seq<(usize, Option<usize>)>) -> Map<
    usize,
    usize,
>
    decreases cs.len(),
{
    if cs.len() == 0 {
        st
    } else {
        let rest = spec_apply_changeset(
            match cs.first().1 {
                Some(v) => st.insert(cs.first().0, v),
                None => st.remove(cs.first().0),
            },
            cs.drop_first(),
        );
        rest
    }
}

/// Fold a block's final changes into the ledger.
pub fn apply_changeset(ledger: &mut Ledger, changeset: &Vec<(usize, Option<usize>)>)
    requires
        old(ledger).wf(),
    ensures
        final(ledger).wf(),
        final(ledger)@ == spec_apply_changeset(old(ledger)@, changeset@),
{
    let n = changeset.len();
    let mut i: usize = 0;
    proof {
        assert(changeset@.skip(0) =~= changeset@);
    }
    while i < n
        invariant
            ledger.wf(),
            n == changeset@.len(),
            i <= n,
            spec_apply_changeset(old(ledger)@, changeset@) == spec_apply_changeset(
                ledger@,
                changeset@.skip(i as int),
            ),
        decreases n - i,
    {
        proof {
            assert(changeset@.skip(i as int).first() == changeset@[i as int]);
            assert(changeset@.skip(i as int).drop_first() =~= changeset@.skip(i + 1 as int));
        }
        let (k, ov) = changeset[i];
        match ov {
            Some(v) => ledger.insert(k, v),
            None => ledger.remove(k),
        }
        i += 1;
    }
    proof {
        assert(changeset@.skip(n as int) =~= Seq::<(usize, Option<usize>)>::empty());
    }
}

/// Build a random block: `txns_num` transfers between distinct accounts
/// below `accounts_num`, amounts within the given bounds, over a ledger
/// that starts every account at `init_balance`.
pub fn generate_txns_and_ledger(
    accounts_num: usize,
    init_balance: usize,
    txns_num: usize,
    min_txn_money: usize,
    max_txn_money: usize,
) -> (r: (Vec<TransferTransaction>, Ledger))
    requires
        accounts_num >= 2,
        min_txn_money <= max_txn_money,
        max_txn_money < usize::MAX,
    ensures
        r.1.wf(),
        r.0@.len() == txns_num,
        forall|a: usize| a < accounts_num ==> r.1@.dom().contains(a),
        forall|a: usize| a < accounts_num ==> r.1@[a] == init_balance,
        forall|j: int|
            0 <= j < txns_num ==> {
                &&& (#[trigger] r.0@[j]).from < accounts_num
                &&& r.0@[j].to < accounts_num
                &&& r.0@[j].from != r.0@[j].to
                &&& min_txn_money <= r.0@[j].money <= max_txn_money
            },
{
    let mut ledger = Ledger::new();
    let mut a: usize = 0;
    while a < accounts_num
        invariant
            ledger.wf(),
            a <= accounts_num,
            forall|x: usize| x < a ==> ledger@.dom().contains(x),
            forall|x: usize| x < a ==> ledger@[x] == init_balance,
        decreases accounts_num - a,
    {
        let ghost prev = ledger@;
        ledger.insert(a, init_balance);
        proof {
            assert forall|x: usize| x < a + 1 implies ledger@.dom().contains(x) by {
                if x < a {
                    assert(prev.dom().contains(x));
                }
            }
            assert forall|x: usize| x < a + 1 implies ledger@[x] == init_balance by {
                if x < a {
                    assert(prev[x] == init_balance);
                }
            }
        }
        a += 1;
    }
    let mut txns: Vec<TransferTransaction> = Vec::new();
    let mut t: usize = 0;
    while t < txns_num
        invariant
            accounts_num >= 2,
            min_txn_money <= max_txn_money,
            max_txn_money < usize::MAX,
            t <= txns_num,
            txns@.len() == t,
            forall|j: int|
                0 <= j < t ==> {
                    &&& (#[trigger] txns@[j]).from < accounts_num
                    &&& txns@[j].to < accounts_num
                    &&& txns@[j].from != txns@[j].to
                    &&& min_txn_money <= txns@[j].money <= max_txn_money
                },
        decreases txns_num - t,
    {
        let from = sample_usize_range(0, accounts_num);
        let other = sample_usize_range(0, accounts_num - 1);
        let to = if other >= from {
            other + 1
        } else {
            other
        };
        let money = sample_usize_range(min_txn_money, max_txn_money + 1);
        txns.push(TransferTransaction { from, to, money });
        t += 1;
    }
    (txns, ledger)
}

/// Relies on rand's `Rng::gen_range` over a half-open range of machine
/// words: for a non-empty range it returns a value inside it.
#[verifier::external_body]
fn sample_usize_range(lo: usize, hi: usize) -> (r: usize)
    requires
        lo < hi,
    ensures
        lo <= r < hi,
{
    rand::Rng::gen_range(&mut rand::thread_rng(), lo..hi)
}

} // verus!
