//! Protocol-wide guarantees, stated over the lock's invariant.
//!
//! `ExclusiveLock::new` establishes `wf`, and every step function both
//! requires and re-establishes it, so `wf` holds in every reachable state no
//! matter how the steps of different participants interleave.  Each lemma
//! below therefore speaks about all reachable states.

use vstd::prelude::*;

use crate::lock::ExclusiveLock;

verus! {

/// Mutual exclusion: in every reachable state, at most one slot owns the
/// lock.  Two slots whose handles are live — holding, or still completing
/// their release — are necessarily the same slot, so no two live handles to
/// the same lock ever coexist, under any interleaving of the steps.
pub proof fn lemma_mutual_exclusion<T>(m: ExclusiveLock<T>, t1: usize, t2: usize)
    requires
        m.wf(),
        m.is_owner(t1),
        m.is_owner(t2),
    ensures
        t1 == t2,
{
    let q = m.queue@;
    assert(q.contains(t1));
    assert(q.contains(t2));
    let i1 = choose|i: int| 0 <= i < q.len() && q[i] == t1;
    let i2 = choose|i: int| 0 <= i < q.len() && q[i] == t2;
    if i1 != 0 {
        assert(m.waiter_ok(i1));
    }
    if i2 != 0 {
        assert(m.waiter_ok(i2));
    }
}

/// Fairness of the queue: a slot that enqueued behind others never owns the
/// lock while any earlier-enqueued slot is still queued.  Since `acquire_enqueue`
/// appends to the back of the logical queue and every hand-off removes the
/// front, slots are granted the lock exactly in the order in which their
/// tail swaps took effect.
pub proof fn lemma_fifo_order<T>(m: ExclusiveLock<T>, j: int)
    requires
        m.wf(),
        1 <= j < m.queue@.len(),
    ensures
        !m.is_owner(m.queue@[j]),
{
    assert(m.waiter_ok(j));
}

/// The tail is null exactly when the lock is completely free — no holder and
/// no waiter.  Together with the contract of `try_acquire` this says that a
/// non-blocking acquisition succeeds if and only if the lock was completely
/// free at the instant of its compare-and-swap.
pub proof fn lemma_free_iff_tail_null<T>(m: ExclusiveLock<T>)
    requires
        m.wf(),
    ensures
        m.completely_free() <==> m.tail is None,
{
}

/// The release dichotomy: a releaser that found no published successor frees
/// the lock precisely when its own node is still the tail — that is, when it
/// is the only queued slot; otherwise at least one successor is already
/// queued behind it and will be handed the lock.  Exactly one of the two
/// outcomes occurs, never both and never neither.
pub proof fn lemma_release_exclusive_outcome<T>(m: ExclusiveLock<T>)
    requires
        m.wf(),
        !m.completely_free(),
        m.phases@[m.queue@[0] as int] is Confirming,
    ensures
        (m.tail == Some(m.queue@[0])) <==> m.queue@.len() == 1,
        !(m.tail == Some(m.queue@[0])) ==> m.queue@.len() >= 2,
{
    let q = m.queue@;
    if q.len() >= 2 {
        assert(q[0] != q[q.len() - 1]);
    }
}

} // verus!
