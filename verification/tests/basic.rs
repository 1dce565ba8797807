use queue_lock::lock::ExclusiveLock;
use queue_lock::lock::QueueNode;
use queue_lock::lock::ReleaseStep;
use queue_lock::pause::pause;

#[test]
fn pause_returns() {
    // The spin hint must always come back; it promises nothing else.
    pause();
    pause();
}

#[test]
fn queue_node_starts_unsignalled() {
    let n = QueueNode::new();
    assert!(n.successor_signal.is_none());
    let d = QueueNode::default();
    assert!(d.successor_signal.is_none());
}

#[test]
fn new_lock_is_free() {
    let lock: ExclusiveLock<u32> = ExclusiveLock::new(5, 4);
    assert!(lock.is_free());
}

#[test]
fn unwrap_roundtrip_plain_value() {
    let lock = ExclusiveLock::new(12345u64, 3);
    assert_eq!(lock.unwrap(), 12345u64);
}

#[test]
fn unwrap_roundtrip_owning_value() {
    // A value that owns resources moves through construction and unwrap
    // untouched: same contents, ownership handed back exactly once.
    let v = vec![String::from("alpha"), String::from("beta")];
    let lock = ExclusiveLock::new(v, 2);
    let back = lock.unwrap();
    assert_eq!(back, vec![String::from("alpha"), String::from("beta")]);
}

#[test]
fn unwrap_after_full_cycle() {
    let mut lock = ExclusiveLock::new(7i64, 1);
    let h = lock.try_acquire(0).expect("free lock must be acquired");
    lock.write(&h, 8);
    assert!(matches!(lock.release(h), ReleaseStep::Unconfirmed));
    assert!(matches!(lock.release_confirm_free(0), ReleaseStep::Freed));
    assert_eq!(lock.unwrap(), 8);
}

#[test]
fn get_mut_bypasses_protocol() {
    let mut lock = ExclusiveLock::new(1u32, 2);
    *lock.get_mut() = 99;
    assert!(lock.is_free());
    let h = lock.try_acquire(0).expect("free lock must be acquired");
    assert_eq!(*lock.read(&h), 99);
    assert!(matches!(lock.release(h), ReleaseStep::Unconfirmed));
    assert!(matches!(lock.release_confirm_free(0), ReleaseStep::Freed));
}
