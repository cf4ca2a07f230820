//! Randomized agreement between the engine and the sequential reference.

use block_stm::executor::ParallelExecutor;
use block_stm::transfer::{
    generate_txns_and_ledger, my_parallel_execute, sequential_execute, TransferTransaction,
    TransferVM,
};

#[test]
fn test_my_parallel_execute() {
    let (txns, ledger) = generate_txns_and_ledger(5, 1_000_000, 1_000, 1, 1_000);
    let s_output = sequential_execute(&txns, &ledger).expect("execute error");
    let mp_output = my_parallel_execute(&txns, &ledger, 4).expect("execute error");
    assert_eq!(s_output, mp_output);
}

#[test]
fn correctness() {
    let mut loop_cnt = 0;
    while loop_cnt < 3 {
        let (txns, ledger) = generate_txns_and_ledger(5, 1_000_000, 1_000, 1, 1_000);
        let s_output = sequential_execute(&txns, &ledger).expect("execute error");
        let mp_output = my_parallel_execute(&txns, &ledger, 4).expect("execute error");
        assert_eq!(s_output, mp_output);
        loop_cnt += 1;
        println!("{} correctness tests passed", loop_cnt);
    }
}

#[test]
fn generated_blocks_respect_bounds() {
    let (txns, ledger) = generate_txns_and_ledger(3, 500, 64, 7, 7);
    assert_eq!(txns.len(), 64);
    for t in &txns {
        assert!(t.from < 3);
        assert!(t.to < 3);
        assert_ne!(t.from, t.to);
        assert_eq!(t.money, 7);
    }
    for a in 0..3 {
        assert_eq!(ledger.get(a), Some(500));
    }
}

#[test]
fn raw_engine_agrees_with_reference() {
    // the engine itself, without the entry point's cross-check, agrees with
    // the sequential reference on a random block
    let (txns, ledger) = generate_txns_and_ledger(5, 1_000_000, 1_000, 1, 1_000);
    let serial = sequential_execute(&txns, &ledger).expect("execute error");
    let pe = ParallelExecutor::<TransferTransaction, TransferVM>::new(4);
    let (raw, _) = pe.execute_transactions(&txns, &ledger).expect("execute error");
    assert_eq!(raw, serial);
}
