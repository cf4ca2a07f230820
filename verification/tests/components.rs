//! Unit behavior of the engine's components: the multi-version map, the
//! scheduler, the ledger, the counters, the descriptors and the byte codec.

use block_stm::ledger::Ledger;
use block_stm::mvmemory::mvmap::{MVMap, MVMapError, MVMapOutput};
use block_stm::mvmemory::{LastTxnIO, MVMemory, ReadDescriptor, ReadType};
use block_stm::scheduler::{Scheduler, SchedulerTask, TransactionStatus};
use block_stm::sync::{AtomicBool, AtomicUsize};
use block_stm::traits::{DeltaOp, IsReadError, Mergeable, Storage, TransactionOutput, ValueBytes};
use block_stm::transfer::TransferTransactionOutput;

#[test]
fn mvmap_read_sees_highest_write_below() {
    let mut m = MVMap::new(true);
    m.write(5, 11, (1, 0));
    m.write(5, 22, (3, 2));
    // a reader above both sees the higher write
    match m.read(&5, 4) {
        Ok(MVMapOutput::Version(version, value)) => {
            assert_eq!(version, (3, 2));
            assert_eq!(value, 22);
        }
        _ => panic!("expected a versioned value"),
    }
    // a reader between them sees the lower one
    match m.read(&5, 2) {
        Ok(MVMapOutput::Version(version, value)) => {
            assert_eq!(version, (1, 0));
            assert_eq!(value, 11);
        }
        _ => panic!("expected a versioned value"),
    }
    // a reader at or below the lowest sees nothing
    assert!(matches!(m.read(&5, 1), Err(MVMapError::NotFound)));
    assert!(matches!(m.read(&9, 4), Err(MVMapError::NotFound)));
}

#[test]
fn mvmap_estimate_reports_dependency() {
    let mut m = MVMap::new(true);
    m.write(5, 11, (1, 0));
    m.mark_estimate(&5, 1);
    match m.read(&5, 3) {
        Err(MVMapError::ReadError(blocking)) => assert_eq!(blocking, 1),
        _ => panic!("expected a dependency"),
    }
    // a fresh write clears the flag
    m.write(5, 12, (1, 1));
    assert!(matches!(m.read(&5, 3), Ok(MVMapOutput::Version((1, 1), 12))));
}

#[test]
fn mvmap_delete_removes_entry() {
    let mut m = MVMap::new(true);
    m.write(5, 11, (1, 0));
    m.delete(&5, 1);
    assert!(matches!(m.read(&5, 3), Err(MVMapError::NotFound)));
}

#[test]
fn mvmap_partial_merge_folds_deltas() {
    let mut m = MVMap::new(true);
    m.delta(5, DeltaOp { amount: 3 }, (1, 0));
    m.delta(5, DeltaOp { amount: 4 }, (2, 0));
    match m.read(&5, 3) {
        Ok(MVMapOutput::PartialMerged(d)) => assert_eq!(d, DeltaOp { amount: 7 }),
        _ => panic!("expected a folded delta"),
    }
    // a write below the deltas turns the read into a merged value
    m.write(5, 10, (0, 0));
    match m.read(&5, 3) {
        Ok(MVMapOutput::Merged(v)) => assert_eq!(v, 17),
        _ => panic!("expected a merged value"),
    }
}

#[test]
fn mvmap_list_mode_keeps_deltas_in_block_order() {
    let mut m = MVMap::new(false);
    m.delta(5, DeltaOp { amount: 3 }, (1, 0));
    m.delta(5, DeltaOp { amount: 4 }, (2, 0));
    match m.read(&5, 3) {
        Ok(MVMapOutput::Unmerged(ds)) => {
            assert_eq!(ds, vec![DeltaOp { amount: 3 }, DeltaOp { amount: 4 }]);
        }
        _ => panic!("expected an unmerged list"),
    }
    m.write(5, 100, (0, 0));
    match m.read(&5, 3) {
        Ok(MVMapOutput::Merged(v)) => assert_eq!(v, 107),
        _ => panic!("expected a merged value"),
    }
}

#[test]
fn delta_saturates_at_top() {
    let d1 = DeltaOp { amount: usize::MAX - 1 };
    let d2 = DeltaOp { amount: 5 };
    let merged = usize::partial_merge(&d1, &d2);
    assert_eq!(merged, DeltaOp { amount: usize::MAX });
    // associativity on the saturating edge
    let v: usize = 10;
    assert_eq!(v.apply_delta(&merged), v.apply_delta(&d1).apply_delta(&d2));
    // and away from it
    let d3 = DeltaOp { amount: 3 };
    let d4 = DeltaOp { amount: 9 };
    assert_eq!(
        7usize.apply_delta(&usize::partial_merge(&d3, &d4)),
        7usize.apply_delta(&d3).apply_delta(&d4)
    );
    assert_eq!(usize::partial_merge(&d3, &d4), usize::partial_merge(&d4, &d3));
}

#[test]
fn value_bytes_roundtrip() {
    let v: usize = 123_456_789;
    let bytes = v.serialize().expect("serialize none");
    assert_eq!(bytes.len(), 8);
    assert_eq!(usize::deserialize(bytes.as_slice()), v);
}

#[test]
fn ledger_insert_get_remove() {
    let mut ledger = Ledger::new();
    assert_eq!(ledger.len(), 0);
    ledger.insert(3, 30);
    ledger.insert(4, 40);
    ledger.insert(3, 33);
    assert_eq!(ledger.len(), 2);
    assert_eq!(ledger.get(3), Some(33));
    assert_eq!(ledger.get(4), Some(40));
    assert!(!ledger.contains_key(5));
    ledger.remove(3);
    assert_eq!(ledger.get(3), None);
    assert_eq!(ledger.len(), 1);
    let copy = ledger.clone();
    assert_eq!(copy.get(4), Some(40));
}

#[test]
fn atomic_counters_wrap() {
    let mut c = AtomicUsize::new(usize::MAX - 1);
    assert_eq!(c.increment(), usize::MAX - 1);
    assert_eq!(c.increment(), usize::MAX);
    assert_eq!(c.load(), 0);
    let mut d = AtomicUsize::new(0);
    assert_eq!(d.decrement(), 0);
    assert_eq!(d.load(), usize::MAX);
    let mut e = AtomicUsize::new(9);
    assert_eq!(e.fetch_min(4), 9);
    assert_eq!(e.fetch_min(7), 4);
    assert_eq!(e.load(), 4);
    let mut b = AtomicBool::new(false);
    assert!(!b.load());
    b.store(true);
    assert!(b.load());
}

#[test]
fn transaction_status_transitions() {
    let mut st = TransactionStatus::ReadyToExecute(2);
    assert_eq!(st.incarnation_number(), 2);
    st.executing();
    assert_eq!(st, TransactionStatus::Executing(2));
    st.executed();
    assert_eq!(st, TransactionStatus::Executed(2));
    st.aborting();
    assert_eq!(st, TransactionStatus::Aborting(2));
    st.ready_to_execute();
    assert_eq!(st, TransactionStatus::ReadyToExecute(2));
}

#[test]
fn scheduler_hands_out_first_execution() {
    let mut s = Scheduler::new(2);
    assert!(!s.done());
    // cursors tie: a validation is attempted first, and txn 0 is not
    // executed yet
    assert!(matches!(s.next_task(), SchedulerTask::NoTask));
    // now the execution cursor is behind: execution of txn 0 is handed out
    match s.next_task() {
        SchedulerTask::Execution(version) => assert_eq!(version, (0, 0)),
        _ => panic!("expected an execution task"),
    }
}

#[test]
fn scheduler_abort_requires_matching_incarnation() {
    let mut s = Scheduler::new(1);
    assert!(matches!(s.next_task(), SchedulerTask::NoTask));
    match s.next_task() {
        SchedulerTask::Execution(version) => assert_eq!(version, (0, 0)),
        _ => panic!("expected an execution task"),
    }
    // not yet executed: abort of (0, 0) is refused
    assert!(!s.abort(0, 0));
    let task = s.finish_execution(0, 0, true);
    assert!(matches!(task, SchedulerTask::NoTask));
    // executed now: a stale incarnation is refused, the current one taken
    assert!(!s.abort(0, 1));
    assert!(s.abort(0, 0));
    // the execution cursor has passed the aborted transaction, so its next
    // incarnation is handed straight back
    match s.finish_validation(0, true) {
        SchedulerTask::Execution(version) => assert_eq!(version, (0, 1)),
        _ => panic!("expected the next incarnation"),
    }
}

#[test]
fn read_descriptor_validation() {
    let d = ReadDescriptor::new_version(5, (2, 1));
    assert_eq!(d.key(), 5);
    assert!(d.validate_version((2, 1)));
    assert!(!d.validate_version((2, 2)));
    assert!(!d.validate_storage());
    let s = ReadDescriptor::new_storage(5);
    assert!(s.validate_storage());
    assert!(!s.validate_merged(3));
    let m = ReadDescriptor::new_merged(5, 3);
    assert!(m.validate_merged(3));
    assert!(!m.validate_merged(4));
    let p = ReadDescriptor::new_partial_merged(5, DeltaOp { amount: 2 });
    assert!(p.validate_partial_merged(DeltaOp { amount: 2 }));
    assert!(!p.validate_partial_merged(DeltaOp { amount: 3 }));
    let u = ReadDescriptor::new_unmerged(5, vec![DeltaOp { amount: 2 }]);
    assert!(u.validate_unmerged(&vec![DeltaOp { amount: 2 }]));
    assert!(!u.validate_unmerged(&vec![DeltaOp { amount: 9 }]));
    assert!(!u.validate_unmerged(&Vec::new()));
    assert!(matches!(u.read_type, ReadType::Unmerged(_)));
}

#[test]
fn last_txn_io_records_and_takes() {
    let mut io: LastTxnIO<TransferTransactionOutput> = LastTxnIO::new(2);
    assert!(io.last_read_set(0).is_none());
    assert_eq!(io.last_modified_keys(0), Vec::new());
    let out = TransferTransactionOutput(vec![(3, 30), (4, 40)]);
    io.record(0, vec![ReadDescriptor::new_storage(3)], out);
    assert_eq!(io.last_modified_keys(0), vec![3, 4]);
    let reads = io.last_read_set(0).as_ref().expect("no read set");
    assert_eq!(reads.len(), 1);
    assert!(io.has_output(0));
    let taken = io.take_output(0);
    assert_eq!(taken.get_write_set(), vec![(3, 30), (4, 40)]);
    assert!(!io.has_output(0));
}

#[test]
fn mvmemory_snapshot_folds_deltas_onto_storage() {
    let mut m = MVMemory::new(4);
    m.apply((0, 0), &Vec::new(), &vec![(5, 50)], &Vec::new());
    m.apply((1, 0), &Vec::new(), &Vec::new(), &vec![(6, DeltaOp { amount: 3 })]);
    let mut storage = Ledger::new();
    storage.insert(6, 10);
    let changeset = m.snapshot(&storage);
    assert_eq!(changeset, vec![(5, Some(50)), (6, Some(13))]);
    // a key whose only content is a delta with no base value is left out
    m.apply((2, 0), &Vec::new(), &Vec::new(), &vec![(7, DeltaOp { amount: 1 })]);
    let changeset = m.snapshot(&storage);
    assert_eq!(changeset, vec![(5, Some(50)), (6, Some(13))]);
}

#[test]
fn mvmemory_apply_replaces_previous_incarnation() {
    let mut m = MVMemory::new(4);
    m.apply((1, 0), &Vec::new(), &vec![(5, 50), (6, 60)], &Vec::new());
    // the next incarnation writes only key 5: key 6 is dropped
    let wrote_new = m.apply((1, 1), &vec![5, 6], &vec![(5, 55)], &Vec::new());
    assert!(!wrote_new);
    assert!(matches!(m.read(&5, 2), Ok(MVMapOutput::Version((1, 1), 55))));
    assert!(matches!(m.read(&6, 2), Err(MVMapError::NotFound)));
    // writing an entirely fresh key reports it
    let wrote_new = m.apply((1, 2), &vec![5], &vec![(8, 80)], &Vec::new());
    assert!(wrote_new);
}

#[test]
fn mvmemory_validation_matches_reread() {
    let mut m = MVMemory::new(4);
    m.apply((0, 0), &Vec::new(), &vec![(5, 50)], &Vec::new());
    let good = vec![ReadDescriptor::new_version(5, (0, 0)), ReadDescriptor::new_storage(9)];
    assert!(m.validate_read_set(2, &good));
    let stale = vec![ReadDescriptor::new_storage(5)];
    assert!(!m.validate_read_set(2, &stale));
    let wrong_version = vec![ReadDescriptor::new_version(5, (0, 1))];
    assert!(!m.validate_read_set(2, &wrong_version));
}

#[test]
fn estimate_suspends_reader_until_writer_finishes() {
    // txn 0's entry is flagged as an estimate; a view for txn 1 reports the
    // dependency instead of a value and captures nothing
    let mut m = MVMemory::new(2);
    m.apply((0, 0), &Vec::new(), &vec![(5, 50)], &Vec::new());
    m.convert_writes_to_estimates(0, &vec![5]);
    let mut view = block_stm::mvmemory::MVMemoryView::new(1, &m);
    match view.read(&5) {
        Err(MVMapError::ReadError(blocking)) => assert_eq!(blocking, 0),
        _ => panic!("expected a dependency"),
    }
    assert_eq!(view.take_read_set().len(), 0);

    // the scheduler suspends txn 1 on txn 0 and resumes it when txn 0
    // finishes executing
    let mut s = Scheduler::new(2);
    assert!(matches!(s.next_task(), SchedulerTask::NoTask));
    match s.next_task() {
        SchedulerTask::Execution(version) => assert_eq!(version, (0, 0)),
        _ => panic!("expected execution of txn 0"),
    }
    // cursors tie again: one validation attempt comes back empty first
    assert!(matches!(s.next_task(), SchedulerTask::NoTask));
    match s.next_task() {
        SchedulerTask::Execution(version) => assert_eq!(version, (1, 0)),
        _ => panic!("expected execution of txn 1"),
    }
    assert!(s.wait_for_dependency(1, 0));
    // txn 0 finishes; txn 1 becomes ready again and is handed out anew
    let task = s.finish_execution(0, 0, true);
    assert!(matches!(task, SchedulerTask::NoTask));
    let mut saw_txn1 = false;
    for _ in 0..8 {
        if let SchedulerTask::Execution(version) = s.next_task() {
            assert_eq!(version, (1, 0));
            saw_txn1 = true;
            break;
        }
    }
    assert!(saw_txn1);
}

#[test]
fn read_errors_expose_their_blocker() {
    let dep = MVMapError::ReadError(3);
    assert!(dep.is_read_error());
    assert_eq!(dep.get_blocking_txn_idx(), Some(3));
    let miss = MVMapError::NotFound;
    assert!(!miss.is_read_error());
    assert_eq!(miss.get_blocking_txn_idx(), None);
}

#[test]
fn ledger_serves_as_base_storage() {
    let mut ledger = Ledger::new();
    ledger.insert(2, 77);
    assert_eq!(ledger.read(&2), 77);
}
