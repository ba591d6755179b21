use hyperplane::reconciler::rollback::RollbackHandler;
use hyperplane::reconciler::roots::RootTracker;
use hyperplane::reconciler::watermarks::WatermarkTracker;
use hyperplane::reconciler::{CommitmentLevel, SlotReconciler};

#[test]
fn test_slot_reconciler_basic() {
    let mut reconciler = SlotReconciler::new(100);

    assert_eq!(reconciler.get_root(), 100);
    assert_eq!(reconciler.get_slot(CommitmentLevel::Processed), 100);
    assert_eq!(reconciler.get_slot(CommitmentLevel::Confirmed), 100);
    assert_eq!(reconciler.get_slot(CommitmentLevel::Finalized), 100);

    reconciler.update_processed(101);
    reconciler.update_confirmed(100);
    reconciler.update_finalized(99);

    assert_eq!(reconciler.get_slot(CommitmentLevel::Processed), 101);
    assert_eq!(reconciler.get_slot(CommitmentLevel::Confirmed), 100);
    assert_eq!(reconciler.get_slot(CommitmentLevel::Finalized), 99);

    assert!(reconciler.is_finalized(99));
    assert!(!reconciler.is_finalized(100));
}

#[test]
fn test_slot_reconciler_rollback() {
    let mut reconciler = SlotReconciler::new(100);

    reconciler.update_processed(105);
    reconciler.update_confirmed(104);
    reconciler.update_finalized(103);

    assert_eq!(reconciler.get_root(), 100);
    assert_eq!(reconciler.rollback_count(), 0);

    reconciler.handle_rollback(102);

    assert_eq!(reconciler.get_root(), 102);
    assert_eq!(reconciler.rollback_count(), 1);
    assert_eq!(reconciler.get_slot(CommitmentLevel::Finalized), 102);
}

#[test]
fn test_rollback_above_finalized_keeps_it() {
    let mut reconciler = SlotReconciler::new(10);
    reconciler.update_finalized(12);
    reconciler.handle_rollback(20);
    assert_eq!(reconciler.get_slot(CommitmentLevel::Finalized), 12);
    assert_eq!(reconciler.get_root(), 20);
    assert!(reconciler.is_confirmed(10));
}

#[test]
fn test_trackers() {
    let mut w = WatermarkTracker::new(5);
    assert!(w.update(7));
    assert!(!w.update(6));
    assert_eq!(w.get(), 7);
    let mut r = RootTracker::new(3);
    assert_eq!(r.update_root(9), 3);
    assert_eq!(r.get_root(), 9);
    let mut h = RollbackHandler::new();
    h.handle_rollback_at(50, 40, 1234);
    assert_eq!(h.rollback_count(), 1);
    let e = h.last_rollback().unwrap();
    assert_eq!(e.from_slot, 50);
    assert_eq!(e.to_slot, 40);
    assert_eq!(e.timestamp, 1234);
}
