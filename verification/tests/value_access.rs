use queue_lock::lock::AcquireStep;
use queue_lock::lock::ExclusiveLock;
use queue_lock::lock::ReleaseStep;

#[test]
fn in_place_mutation_visible_to_next_acquirer() {
    // A lock over a dynamically-sized payload: elements are mutated in
    // place through the handle, without the value ever being copied out,
    // and the next acquirer observes the mutation.
    let mut lock = ExclusiveLock::new(vec![10i32, 20, 30, 40], 2);
    let h0 = lock.try_acquire(0).expect("free");
    lock.value_mut(&h0)[1] = 99;
    lock.value_mut(&h0)[3] = -7;
    assert!(matches!(lock.release(h0), ReleaseStep::Unconfirmed));
    assert!(matches!(lock.release_confirm_free(0), ReleaseStep::Freed));
    let h1 = lock.try_acquire(1).expect("free again");
    assert_eq!(*lock.read(&h1), vec![10, 99, 30, -7]);
    assert!(matches!(lock.release(h1), ReleaseStep::Unconfirmed));
    assert!(matches!(lock.release_confirm_free(1), ReleaseStep::Freed));
    assert_eq!(lock.unwrap(), vec![10, 99, 30, -7]);
}

#[test]
fn nested_locks_do_not_interfere() {
    // A lock whose protected value is itself a lock: the handle of the
    // outer lock gives access to the inner one, which is then acquired and
    // mutated through both layers, with no deadlock and correct values.
    let inner = ExclusiveLock::new(7u32, 1);
    let mut outer = ExclusiveLock::new(inner, 1);
    let ho = match outer.acquire_enqueue(0) {
        AcquireStep::Acquired(h) => h,
        AcquireStep::MustPublish => panic!("outer queue was empty"),
    };
    {
        let inner_ref = outer.value_mut(&ho);
        let hi = inner_ref.try_acquire(0).expect("inner lock is free");
        assert_eq!(*inner_ref.read(&hi), 7);
        *inner_ref.value_mut(&hi) = 8;
        assert!(matches!(inner_ref.release(hi), ReleaseStep::Unconfirmed));
        assert!(matches!(
            inner_ref.release_confirm_free(0),
            ReleaseStep::Freed
        ));
    }
    assert!(matches!(outer.release(ho), ReleaseStep::Unconfirmed));
    assert!(matches!(outer.release_confirm_free(0), ReleaseStep::Freed));
    assert_eq!(outer.unwrap().unwrap(), 8);
}
