use gbe_core::broker::{backoff_after_read_error, dead_letter_key, group_start_id, next_action, DriverAction};
use gbe_core::error::StateStoreError;
use gbe_core::options::{ScanOp, StartPosition};
use gbe_core::scan::{bytes_less, check_store_open, ScanFilter};

fn filter(op: ScanOp, value: &str, max: Option<u32>) -> ScanFilter {
    ScanFilter { field: "state".to_string(), op, value: value.as_bytes().to_vec(), max_results: max }
}

#[test]
fn scan_filter_eq() {
    let f = filter(ScanOp::Eq, "pending", None);
    assert!(f.matches(Some(&b"pending".to_vec())));
    assert!(!f.matches(Some(&b"running".to_vec())));
    assert!(!f.matches(None));
}

#[test]
fn scan_filter_bytewise_order() {
    let lt = filter(ScanOp::Lt, "m", None);
    assert!(lt.matches(Some(&b"a".to_vec())));
    assert!(!lt.matches(Some(&b"m".to_vec())));
    assert!(!lt.matches(Some(&b"z".to_vec())));
    let gt = filter(ScanOp::Gt, "10", None);
    assert!(gt.matches(Some(&b"9".to_vec())));
    assert!(gt.matches(Some(&b"100".to_vec())));
    assert!(!gt.matches(Some(&b"1".to_vec())));
    assert!(bytes_less(&vec![], &vec![0]));
    assert!(!bytes_less(&vec![1, 2], &vec![1, 2]));
}

#[test]
fn scan_limit() {
    let f = filter(ScanOp::Eq, "x", Some(2));
    assert!(!f.limit_reached(1));
    assert!(f.limit_reached(2));
    assert!(!filter(ScanOp::Eq, "x", None).limit_reached(1000));
}

#[test]
fn closed_store_fails() {
    assert!(check_store_open(false).is_ok());
    match check_store_open(true) {
        Err(StateStoreError::Other(m)) => assert_eq!(m, "store is closed"),
        other => panic!("unexpected: {other:?}"),
    }
}

#[test]
fn broker_group_start_ids() {
    assert_eq!(group_start_id(&StartPosition::Latest), "$");
    assert_eq!(group_start_id(&StartPosition::Earliest), "0");
    assert_eq!(group_start_id(&StartPosition::Timestamp(1707934567000)), "1707934567000-0");
    assert_eq!(group_start_id(&StartPosition::Id("1-2".to_string())), "1-2");
}

#[test]
fn broker_driver_decisions() {
    assert_eq!(next_action(Some(100), 100, 0, 30_000), DriverAction::Backoff);
    assert_eq!(next_action(Some(5), 100, 15_000, 30_000), DriverAction::ReclaimThenRead);
    assert_eq!(next_action(None, 100, 14_999, 30_000), DriverAction::Read);
    assert!(!backoff_after_read_error(true));
    assert!(backoff_after_read_error(false));
    assert_eq!(dead_letter_key("gbe:test:deadletter"), "gbe:_deadletter:test");
}
