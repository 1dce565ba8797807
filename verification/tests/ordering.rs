use queue_lock::lock::AcquireStep;
use queue_lock::lock::ExclusiveLock;
use queue_lock::lock::LockHandle;
use queue_lock::lock::ReleaseStep;

#[test]
fn grants_follow_enqueue_order() {
    // Four participants enqueue in the order 2, 0, 3, 1; the lock must be
    // granted in exactly that order.
    let mut lock = ExclusiveLock::new((), 4);
    let order = [2usize, 0, 3, 1];
    let h2 = match lock.acquire_enqueue(order[0]) {
        AcquireStep::Acquired(h) => h,
        AcquireStep::MustPublish => panic!("first enqueuer is granted at once"),
    };
    for &s in &order[1..] {
        assert!(matches!(lock.acquire_enqueue(s), AcquireStep::MustPublish));
        lock.acquire_publish(s);
    }
    let mut granted = vec![h2.node];
    let mut handle = h2;
    for _ in 0..order.len() - 1 {
        let next = match lock.release(handle) {
            ReleaseStep::HandedOff(s) => s,
            _ => panic!("a published successor is waiting"),
        };
        handle = lock.acquire_poll(next).expect("woken waiter acquires");
        granted.push(handle.node);
    }
    assert!(matches!(lock.release(handle), ReleaseStep::Unconfirmed));
    assert!(matches!(
        lock.release_confirm_free(order[order.len() - 1]),
        ReleaseStep::Freed
    ));
    assert_eq!(granted, order);
}

// Driver state for one participant of the counter scenario.
struct Session {
    remaining: u32,
    state: SessionState,
    handle: Option<LockHandle>,
}

enum SessionState {
    Idle,
    Publishing,
    Polling,
    Holding,
    Confirming,
    Awaiting,
    Done,
}

// Advance one participant by one protocol step (round-robin scheduler).
fn advance(lock: &mut ExclusiveLock<u64>, id: usize, sess: &mut Session) {
    match sess.state {
        SessionState::Idle => {
            if sess.remaining == 0 {
                sess.state = SessionState::Done;
            } else {
                match lock.acquire_enqueue(id) {
                    AcquireStep::Acquired(h) => {
                        sess.handle = Some(h);
                        sess.state = SessionState::Holding;
                    }
                    AcquireStep::MustPublish => {
                        sess.state = SessionState::Publishing;
                    }
                }
            }
        }
        SessionState::Publishing => {
            lock.acquire_publish(id);
            sess.state = SessionState::Polling;
        }
        SessionState::Polling => {
            if let Some(h) = lock.acquire_poll(id) {
                sess.handle = Some(h);
                sess.state = SessionState::Holding;
            }
        }
        SessionState::Holding => {
            let h = sess.handle.take().expect("holding implies a live handle");
            *lock.value_mut(&h) += 1;
            sess.remaining -= 1;
            match lock.release(h) {
                ReleaseStep::HandedOff(_) => sess.state = SessionState::Idle,
                ReleaseStep::Unconfirmed => sess.state = SessionState::Confirming,
                _ => panic!("release returns a hand-off or asks to confirm"),
            }
        }
        SessionState::Confirming => match lock.release_confirm_free(id) {
            ReleaseStep::Freed => sess.state = SessionState::Idle,
            ReleaseStep::SuccessorPending => sess.state = SessionState::Awaiting,
            _ => panic!("confirmation frees or detects a successor"),
        },
        SessionState::Awaiting => match lock.release_await_successor(id) {
            ReleaseStep::HandedOff(_) => sess.state = SessionState::Idle,
            ReleaseStep::StillWaiting => {}
            _ => panic!("awaiting ends in a hand-off"),
        },
        SessionState::Done => {}
    }
}

#[test]
fn no_lost_updates_under_contention() {
    // Six participants each increment the shared counter a thousand times,
    // interleaved one protocol step at a time; mutual exclusion means the
    // final count is exact.
    let participants: usize = 6;
    let rounds: u32 = 1000;
    let mut lock = ExclusiveLock::new(0u64, participants);
    let mut sessions: Vec<Session> = (0..participants)
        .map(|_| Session {
            remaining: rounds,
            state: SessionState::Idle,
            handle: None,
        })
        .collect();
    let mut fuel: u64 = 1_000_000;
    while sessions.iter().any(|s| !matches!(s.state, SessionState::Done)) {
        assert!(fuel > 0, "the driver must make progress");
        fuel -= 1;
        for id in 0..participants {
            advance(&mut lock, id, &mut sessions[id]);
        }
    }
    assert!(lock.is_free());
    assert_eq!(lock.unwrap(), participants as u64 * rounds as u64);
}
