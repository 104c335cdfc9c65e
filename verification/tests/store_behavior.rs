//! The store's time-to-live behavior, with explicit and with real clocks.
use respkv::store::{Store, StoreItem};

#[test]
fn get_at_returns_what_was_set() {
    let mut store = Store::new();
    store.insert_at(b"k", b"v", None, 1_000);
    assert_eq!(store.get_at(b"k", 1_000), Some(b"v".to_vec()));
    // An untimed item never expires, however late the read.
    assert_eq!(store.get_at(b"k", u128::MAX), Some(b"v".to_vec()));
}

#[test]
fn get_of_missing_key_is_absent_not_an_error() {
    let store = Store::new();
    assert_eq!(store.get_at(b"nope", 0), None);
    // The clock-reading read also answers plain absence.
    assert_eq!(store.get(b"nope").unwrap(), None);
}

#[test]
fn timed_item_expires_at_its_deadline() {
    let mut store = Store::new();
    store.insert_at(b"k", b"v", Some(100), 1_000);
    assert_eq!(store.get_at(b"k", 1_050), Some(b"v".to_vec()));
    // The last instant before the deadline reads back; the deadline
    // itself already reads as absent.
    assert_eq!(store.get_at(b"k", 1_099), Some(b"v".to_vec()));
    assert_eq!(store.get_at(b"k", 1_100), None);
}

#[test]
fn set_replaces_value_and_ttl_wholesale() {
    let mut store = Store::new();
    store.insert_at(b"k", b"old", Some(100), 1_000);
    // An untimed overwrite must not inherit the earlier time-to-live.
    store.insert_at(b"k", b"new", None, 2_000);
    assert_eq!(store.get_at(b"k", u128::MAX), Some(b"new".to_vec()));
    // A timed overwrite replaces both value and deadline.
    store.insert_at(b"k", b"newer", Some(5), 3_000);
    assert_eq!(store.get_at(b"k", 3_004), Some(b"newer".to_vec()));
    assert_eq!(store.get_at(b"k", 3_005), None);
}

#[test]
fn set_with_long_ttl_reads_back_immediately() {
    // With the real clock: a generous deadline is never passed between
    // the write and the read.
    let mut store = Store::new();
    store.insert(b"k", b"v", Some(100_000)).unwrap();
    assert_eq!(store.get(b"k").unwrap(), Some(b"v".to_vec()));
}

#[test]
fn set_with_zero_ttl_reads_as_present_or_absent() {
    // A zero time-to-live expires at the very moment of insertion; what
    // the read sees depends on where the clock stood at each of the two
    // samples.  Either answer is within contract, an error is not.
    let mut store = Store::new();
    store.insert(b"k", b"v", Some(0)).unwrap();
    let got = store.get(b"k").unwrap();
    assert!(got == Some(b"v".to_vec()) || got == None);
}

#[test]
fn clone_copies_the_mappings() {
    let mut store = Store::new();
    store.insert_at(b"a", b"1", None, 0);
    let copy = store.clone();
    assert_eq!(copy.get_at(b"a", 0), Some(b"1".to_vec()));
    // The copy holds its own state: writing one leaves the other as is.
    store.insert_at(b"a", b"2", None, 0);
    assert_eq!(copy.get_at(b"a", 0), Some(b"1".to_vec()));
    assert_eq!(store.get_at(b"a", 0), Some(b"2".to_vec()));
}

#[test]
fn item_expiry_is_fixed_at_creation() {
    let item = StoreItem::new_at(b"v", Some(250), 1_000);
    assert_eq!(item.expiry, Some(1_250));
    assert_eq!(item.value, b"v".to_vec());
    assert!(!item.expired_at(1_249));
    assert!(item.expired_at(1_250));
}

#[test]
fn untimed_item_never_expires() {
    let item = StoreItem::new(b"v", None).unwrap();
    assert_eq!(item.expiry, None);
    assert_eq!(item.has_expired().unwrap(), false);
}

#[test]
fn timed_item_with_real_clock() {
    let item = StoreItem::new(b"v", Some(100_000)).unwrap();
    assert!(item.expiry.is_some());
    assert_eq!(item.has_expired().unwrap(), false);
}
