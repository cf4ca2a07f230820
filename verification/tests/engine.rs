//! Block-level behavior of the engine on the money-transfer workload.

use block_stm::executor::ParallelExecutor;
use block_stm::ledger::Ledger;
use block_stm::mvmemory::mvmap::MVMapOutput;
use block_stm::transfer::{
    apply_changeset, my_parallel_execute, parallel_execute, sequential_execute, AggregatorVM,
    TransferTransaction, TransferVM,
};
use block_stm::traits::DeltaOp;

fn ledger_abc() -> Ledger {
    let mut ledger = Ledger::new();
    ledger.insert(0, 100);
    ledger.insert(1, 100);
    ledger.insert(2, 100);
    ledger
}

fn txn(from: usize, to: usize, money: usize) -> TransferTransaction {
    TransferTransaction { from, to, money }
}

#[test]
fn empty_block_returns_empty_outputs() {
    let ledger = Ledger::new();
    let txns: Vec<TransferTransaction> = Vec::new();
    let outputs = my_parallel_execute(&txns, &ledger, 4).expect("engine failed");
    assert_eq!(outputs.len(), 0);
}

#[test]
fn empty_block_leaves_ledger_unchanged() {
    let mut ledger = ledger_abc();
    let txns: Vec<TransferTransaction> = Vec::new();
    let outputs = parallel_execute(&txns, &mut ledger, 2).expect("engine failed");
    assert_eq!(outputs.len(), 0);
    assert_eq!(ledger.get(0), Some(100));
    assert_eq!(ledger.get(1), Some(100));
    assert_eq!(ledger.get(2), Some(100));
    assert_eq!(ledger.len(), 3);
}

#[test]
fn single_transaction_runs_once_without_aborts() {
    let ledger = ledger_abc();
    let txns = vec![txn(0, 1, 25)];
    let pe = ParallelExecutor::<TransferTransaction, TransferVM>::new(2);
    let (outputs, mvmemory) = pe.execute_transactions(&txns, &ledger).expect("engine failed");
    assert_eq!(outputs.len(), 1);
    assert_eq!(outputs[0].0, vec![(0, 75), (1, 125)]);
    // the entries carry incarnation 0: the only execution was the first one
    match mvmemory.read(&0, 1) {
        Ok(MVMapOutput::Version(version, value)) => {
            assert_eq!(version, (0, 0));
            assert_eq!(value, 75);
        }
        _ => panic!("expected a versioned value"),
    }
    match mvmemory.read(&1, 1) {
        Ok(MVMapOutput::Version(version, value)) => {
            assert_eq!(version, (0, 0));
            assert_eq!(value, 125);
        }
        _ => panic!("expected a versioned value"),
    }
}

#[test]
fn disjoint_block_matches_serial() {
    // T0: a->b 10; T1: c->b 5 — no account shared between the write sets'
    // debited sides, final state identical to serial.
    let txns = vec![txn(0, 1, 10), txn(2, 1, 5)];
    let mut ledger = ledger_abc();
    let serial = sequential_execute(&txns, &ledger).expect("sequential failed");
    assert_eq!(serial[0].0, vec![(0, 90), (1, 110)]);
    // T1 runs after T0 in block order, so it credits the post-T0 balance
    assert_eq!(serial[1].0, vec![(2, 95), (1, 115)]);
    let outputs = parallel_execute(&txns, &mut ledger, 4).expect("engine failed");
    assert_eq!(outputs, serial);
    assert_eq!(ledger.get(0), Some(90));
    assert_eq!(ledger.get(1), Some(115));
    assert_eq!(ledger.get(2), Some(95));
}

#[test]
fn read_write_chain_matches_serial() {
    // T0: a->b 30; T1: b->c 20; T1 must observe the post-T0 balance of b.
    let txns = vec![txn(0, 1, 30), txn(1, 2, 20)];
    let mut ledger = ledger_abc();
    let serial = sequential_execute(&txns, &ledger).expect("sequential failed");
    let pe = ParallelExecutor::<TransferTransaction, TransferVM>::new(4);
    let (raw, _) = pe.execute_transactions(&txns, &ledger).expect("engine failed");
    assert_eq!(raw, serial);
    let outputs = parallel_execute(&txns, &mut ledger, 4).expect("engine failed");
    assert_eq!(outputs, serial);
    assert_eq!(ledger.get(0), Some(70));
    assert_eq!(ledger.get(1), Some(110));
    assert_eq!(ledger.get(2), Some(120));
}

#[test]
fn abort_then_recover_matches_serial() {
    // T0: a->b 10; T1: a->c 20; T2: a->b 30 — later transactions race on a.
    let txns = vec![txn(0, 1, 10), txn(0, 2, 20), txn(0, 1, 30)];
    let mut ledger = ledger_abc();
    let serial = sequential_execute(&txns, &ledger).expect("sequential failed");
    let pe = ParallelExecutor::<TransferTransaction, TransferVM>::new(4);
    let (raw, _) = pe.execute_transactions(&txns, &ledger).expect("engine failed");
    assert_eq!(raw, serial);
    let outputs = parallel_execute(&txns, &mut ledger, 4).expect("engine failed");
    assert_eq!(outputs, serial);
    assert_eq!(ledger.get(0), Some(40));
    assert_eq!(ledger.get(1), Some(140));
    assert_eq!(ledger.get(2), Some(120));
}

#[test]
fn all_conflict_block_matches_serial() {
    // every transaction reads and writes the same two accounts
    let mut txns = Vec::new();
    for i in 0..10 {
        txns.push(txn(0, 1, 1 + i));
    }
    let ledger = ledger_abc();
    let serial = sequential_execute(&txns, &ledger).expect("sequential failed");
    let parallel = my_parallel_execute(&txns, &ledger, 4).expect("engine failed");
    assert_eq!(parallel, serial);
    // the raw engine agrees with the reference on its own
    let pe = ParallelExecutor::<TransferTransaction, TransferVM>::new(4);
    let (raw, _) = pe.execute_transactions(&txns, &ledger).expect("engine failed");
    assert_eq!(raw, serial);
}

#[test]
fn zero_conflict_block_has_no_aborts() {
    // each transaction touches its own pair of accounts
    let mut ledger = Ledger::new();
    for a in 0..8 {
        ledger.insert(a, 50);
    }
    let txns = vec![txn(0, 1, 5), txn(2, 3, 7), txn(4, 5, 9), txn(6, 7, 11)];
    let serial = sequential_execute(&txns, &ledger).expect("sequential failed");
    let pe = ParallelExecutor::<TransferTransaction, TransferVM>::new(4);
    let (outputs, mvmemory) = pe.execute_transactions(&txns, &ledger).expect("engine failed");
    assert_eq!(outputs, serial);
    // zero aborts: every surviving entry carries incarnation 0
    for (i, pair) in [(0usize, (0usize, 1usize)), (1, (2, 3)), (2, (4, 5)), (3, (6, 7))] {
        for k in [pair.0, pair.1] {
            match mvmemory.read(&k, 4) {
                Ok(MVMapOutput::Version(version, _)) => {
                    assert_eq!(version, (i, 0));
                }
                _ => panic!("expected a versioned value"),
            }
        }
    }
}

#[test]
fn dependent_pair_reads_writer_value() {
    // T0 writes account 1; T1 reads it and moves the money on.
    let txns = vec![txn(0, 1, 60), txn(1, 2, 150)];
    let mut ledger = ledger_abc();
    let serial = sequential_execute(&txns, &ledger).expect("sequential failed");
    let outputs = parallel_execute(&txns, &mut ledger, 2).expect("engine failed");
    assert_eq!(outputs, serial);
    // T1 saw b = 160 after T0, so the 150 transfer succeeds
    assert_eq!(ledger.get(1), Some(10));
    assert_eq!(ledger.get(2), Some(250));
}

#[test]
fn delta_only_aggregator_counts_to_ten() {
    // ten transactions, each adding one to the counter key as a delta
    let mut ledger = Ledger::new();
    ledger.insert(7, 0);
    let mut txns = Vec::new();
    for _ in 0..10 {
        txns.push(txn(0, 7, 1));
    }
    let pe = ParallelExecutor::<TransferTransaction, AggregatorVM>::new(4);
    let (outputs, mvmemory) = pe.execute_transactions(&txns, &ledger).expect("engine failed");
    assert_eq!(outputs.len(), 10);
    for out in &outputs {
        assert_eq!(out.0, vec![(7, DeltaOp { amount: 1 })]);
    }
    // the snapshot folds the deltas onto the base-state value
    let changeset = mvmemory.snapshot(&ledger);
    assert_eq!(changeset, vec![(7, Some(10))]);
}

#[test]
fn missing_account_is_fatal() {
    let ledger = ledger_abc();
    let txns = vec![txn(0, 99, 10)];
    assert!(sequential_execute(&txns, &ledger).is_none());
    assert!(my_parallel_execute(&txns, &ledger, 2).is_none());
}

#[test]
fn failed_transfer_writes_nothing() {
    // insufficient funds: the output is empty and balances stay
    let txns = vec![txn(0, 1, 1000)];
    let mut ledger = ledger_abc();
    let outputs = parallel_execute(&txns, &mut ledger, 2).expect("engine failed");
    assert_eq!(outputs[0].0, Vec::new());
    assert_eq!(ledger.get(0), Some(100));
    assert_eq!(ledger.get(1), Some(100));
}

#[test]
fn snapshot_reingest_then_empty_block_is_identity() {
    // run a block, fold its snapshot into the ledger, then run an empty
    // block on the result: the state must be unchanged
    let txns = vec![txn(0, 1, 10), txn(1, 2, 5)];
    let mut ledger = ledger_abc();
    let pe = ParallelExecutor::<TransferTransaction, TransferVM>::new(2);
    let (_outputs, mvmemory) = pe.execute_transactions(&txns, &ledger).expect("engine failed");
    let changeset = mvmemory.snapshot(&ledger);
    apply_changeset(&mut ledger, &changeset);
    assert_eq!(ledger.get(0), Some(90));
    assert_eq!(ledger.get(1), Some(105));
    assert_eq!(ledger.get(2), Some(105));
    let a = ledger.get(0);
    let b = ledger.get(1);
    let c = ledger.get(2);
    // the empty block leaves empty memory, whose snapshot changes nothing
    let empty: Vec<TransferTransaction> = Vec::new();
    let (outputs, empty_memory) = pe.execute_transactions(&empty, &ledger).expect("engine failed");
    assert_eq!(outputs.len(), 0);
    let empty_changeset = empty_memory.snapshot(&ledger);
    assert_eq!(empty_changeset, Vec::new());
    apply_changeset(&mut ledger, &empty_changeset);
    assert_eq!(ledger.get(0), a);
    assert_eq!(ledger.get(1), b);
    assert_eq!(ledger.get(2), c);
}

#[test]
fn empty_scheduler_reports_done() {
    // with an empty block, the first ask runs the completion check and the
    // next one hands out Done
    let mut s = block_stm::scheduler::Scheduler::new(0);
    assert!(matches!(s.next_task(), block_stm::scheduler::SchedulerTask::NoTask));
    assert!(s.done());
    assert!(matches!(s.next_task(), block_stm::scheduler::SchedulerTask::Done));
}

#[test]
fn commuted_disjoint_pair_gives_same_outputs() {
    // two transfers over disjoint account pairs, in both orders
    let mut ledger = Ledger::new();
    for a in 0..4 {
        ledger.insert(a, 30);
    }
    let t0 = txn(0, 1, 7);
    let t1 = txn(2, 3, 9);
    let one = sequential_execute(&vec![t0, t1], &ledger).expect("sequential failed");
    let two = sequential_execute(&vec![t1, t0], &ledger).expect("sequential failed");
    assert_eq!(one[0], two[1]);
    assert_eq!(one[1], two[0]);
    let p_one = my_parallel_execute(&vec![t0, t1], &ledger, 2).expect("engine failed");
    assert_eq!(p_one, one);
}

#[test]
fn all_conflict_block_re_executes_speculative_runs() {
    // with several workers racing on the same two accounts, speculative
    // executions read stale balances, fail validation, and re-execute: the
    // surviving entries carry incarnations above zero
    let mut txns = Vec::new();
    for i in 0..10 {
        txns.push(txn(0, 1, 1 + i));
    }
    let ledger = ledger_abc();
    let pe = ParallelExecutor::<TransferTransaction, TransferVM>::new(4);
    let (_outputs, mvmemory) = pe.execute_transactions(&txns, &ledger).expect("engine failed");
    let mut re_executed = 0;
    for i in 0..10 {
        if let Ok(MVMapOutput::Version(version, _)) = mvmemory.read(&0, i + 1) {
            assert_eq!(version.0, i);
            if version.1 > 0 {
                re_executed += 1;
            }
        }
    }
    assert!(re_executed > 0);
}
