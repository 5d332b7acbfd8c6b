//! The registry and the fan-out accounting.

use rust_chat::broadcast::{broadcast_report, DeliveryReport};
use rust_chat::registry::Registry;

#[test]
fn register_get_deregister() {
    let mut reg: Registry<u32> = Registry::new();
    assert!(!reg.contains(1));
    assert!(reg.register(1, 11));
    assert!(reg.contains(1));
    assert_eq!(reg.get(1), Some(&11));
    assert_eq!(reg.get(2), None);
    assert_eq!(reg.deregister(1), Some(11));
    assert!(!reg.contains(1));
}

#[test]
fn register_refuses_duplicate_id() {
    let mut reg: Registry<u32> = Registry::new();
    assert!(reg.register(7, 70));
    assert!(!reg.register(7, 71));
    assert_eq!(reg.get(7), Some(&70));
}

#[test]
fn deregister_twice_is_idempotent() {
    let mut reg: Registry<u32> = Registry::new();
    assert!(reg.register(1, 10));
    assert!(reg.register(2, 20));
    assert_eq!(reg.deregister(1), Some(10));
    // the racing second cleanup: a no-op that changes nothing
    assert_eq!(reg.deregister(1), None);
    assert!(!reg.contains(1));
    assert!(reg.contains(2));
    assert_eq!(reg.get(2), Some(&20));
    assert_eq!(reg.snapshot_except(0), vec![2]);
}

#[test]
fn snapshot_excludes_exactly_one() {
    let mut reg: Registry<u32> = Registry::new();
    assert!(reg.register(1, 10));
    assert!(reg.register(2, 20));
    assert!(reg.register(3, 30));
    assert_eq!(reg.snapshot_except(2), vec![1, 3]);
    assert_eq!(reg.snapshot_except(9), vec![1, 2, 3]);
    assert_eq!(reg.deregister(3), Some(30));
    assert_eq!(reg.snapshot_except(2), vec![1]);
}

#[test]
fn minted_ids_are_fresh() {
    let mut reg: Registry<u32> = Registry::new();
    let a = reg.mint_id().unwrap();
    assert!(reg.register(a, 0));
    let b = reg.mint_id().unwrap();
    assert_ne!(a, b);
    assert!(reg.register(b, 1));
    let c = reg.mint_id().unwrap();
    assert_ne!(a, c);
    assert_ne!(b, c);
    // an identifier may be reused once its connection is gone
    assert_eq!(reg.deregister(b), Some(1));
    let d = reg.mint_id().unwrap();
    assert!(!reg.contains(d));
}

#[test]
fn mint_skips_registered_ids() {
    let mut reg: Registry<u32> = Registry::new();
    assert!(reg.register(5, 50));
    let id = reg.mint_id().unwrap();
    assert!(!reg.contains(id));
    assert!(reg.register(id, 60));
}

#[test]
fn delivery_report_records_each_outcome() {
    let mut report = DeliveryReport::new();
    assert_eq!(report.attempted_count(), 0);
    report.record(1, true);
    report.record(2, false);
    report.record(3, true);
    assert_eq!(report.attempted_count(), 3);
    assert_eq!(report.failed_count(), 1);
}

#[test]
fn broadcast_report_attempts_everyone_despite_failures() {
    // the middle recipient's sink is dead: the others are still attempted
    let plan = vec![10u64, 20, 30];
    let outcomes = vec![true, false, true];
    let report = broadcast_report(&plan, &outcomes);
    assert_eq!(report.attempted_count(), 3);
    assert_eq!(report.failed_count(), 1);
    let all_failed = broadcast_report(&plan, &vec![false, false, false]);
    assert_eq!(all_failed.attempted_count(), 3);
    assert_eq!(all_failed.failed_count(), 3);
}
