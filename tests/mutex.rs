use kcore::mutex::{LockResult, Mutex};

#[test]
fn uncontended_lock_is_immediate() {
    let mut m = Mutex::new(0u32);
    assert_eq!(m.holder(), None);
    assert_eq!(m.lock(1), LockResult::Acquired);
    assert_eq!(m.holder(), Some(1));
    assert_eq!(m.unlock(), None);
    assert_eq!(m.holder(), None);
}

#[test]
fn waiters_are_served_in_order() {
    let mut m = Mutex::new(0u32);
    assert_eq!(m.lock(1), LockResult::Acquired);
    assert_eq!(m.lock(2), LockResult::Queued);
    assert_eq!(m.lock(3), LockResult::Queued);
    assert_eq!(m.lock(4), LockResult::Queued);
    assert_eq!(m.holder(), Some(1));
    assert_eq!(m.unlock(), Some(2));
    assert_eq!(m.holder(), Some(2));
    assert_eq!(m.unlock(), Some(3));
    assert_eq!(m.unlock(), Some(4));
    assert_eq!(m.unlock(), None);
    assert_eq!(m.lock(5), LockResult::Acquired);
}

#[test]
fn cancelled_waiter_is_skipped() {
    let mut m = Mutex::new(0u32);
    m.lock(1);
    m.lock(2);
    m.lock(3);
    assert!(m.cancel(2));
    assert!(!m.cancel(9));
    assert_eq!(m.unlock(), Some(3));
    assert_eq!(m.unlock(), None);
}

#[test]
fn holder_changes_the_guarded_value() {
    let mut m = Mutex::new(10u32);
    assert_eq!(m.lock(1), LockResult::Acquired);
    *m.get_mut(1) += 5;
    assert_eq!(*m.get(1), 15);
    assert_eq!(m.lock(2), LockResult::Queued);
    assert_eq!(m.unlock(), Some(2));
    assert_eq!(*m.get(2), 15);
}
