use vstd::prelude::*;

use crate::pause::pause;

verus! {

/// One slot in the contention queue, supplied per participant.
///
/// The real protocol links waiters through caller-allocated nodes holding a
/// single atomic pointer; here the pointer is the index of the successor's
/// wait flag, and `None` stands for null.
pub struct QueueNode {
    /// Set by the participant immediately behind this one, once that
    /// successor has published its wait flag; `None` while no successor has
    /// announced itself.
    pub successor_signal: Option<usize>,
}

impl QueueNode {
    /// A fresh node with no successor published.
    pub fn new() -> (r: QueueNode)
        ensures
            r.successor_signal is None,
    {
        QueueNode { successor_signal: None }
    }
}

impl Default for QueueNode {
    fn default() -> (r: QueueNode)
        ensures
            r.successor_signal is None,
    {
        QueueNode::new()
    }
}

/// Where one participant stands in the acquire/release protocol.
#[derive(Clone, Copy)]
pub enum Phase {
    /// Not taking part in any acquisition.
    Idle,
    /// Swapped onto the queue tail behind slot `pred` with the wait flag
    /// raised, but the flag's index has not yet been published into the
    /// predecessor's node.
    Enqueued { pred: usize },
    /// Published into the predecessor's node; busy-waiting on the own flag.
    Spinning,
    /// Holding the lock: the handle issued for this slot is live.
    Holding,
    /// Began the release with no successor published at the time of the
    /// check; must confirm with the tail that the queue is really empty.
    Confirming,
    /// The confirmation failed: a successor swapped itself in but has not
    /// published yet, so the releaser spins until the signal appears.
    AwaitingSuccessor,
}

/// The access token issued by a successful acquisition.
///
/// It names the queue slot the acquisition went through; every access to the
/// protected value demands that this slot currently holds the lock, and the
/// release steps consume it, so it cannot be cloned or revived.
pub struct LockHandle {
    /// The slot whose acquisition produced this handle.
    pub node: usize,
}

/// Outcome of one release step.
pub enum ReleaseStep {
    /// A published successor was found and its wait flag cleared; the release
    /// is complete and the named slot now heads the queue.
    HandedOff(usize),
    /// No successor had published at the time of the check; the releaser must
    /// confirm against the tail that the queue is empty.
    Unconfirmed,
    /// The tail still pointed at the releaser's own node: the queue is
    /// confirmed empty and the lock is fully free.
    Freed,
    /// The tail had moved on: a successor is mid-enqueue, and the releaser
    /// must wait for its signal to appear.
    SuccessorPending,
    /// The awaited signal has not appeared yet; spin again.
    StillWaiting,
}

/// Outcome of the enqueue step of a blocking acquisition.
pub enum AcquireStep {
    /// The queue was empty: the lock is held at once.
    Acquired(LockHandle),
    /// The queue was not empty: the participant stands behind a predecessor
    /// and must publish its wait flag into the predecessor's node.
    MustPublish,
}

/// The lock: the protected value, the shared queue state, and the local state
/// of every participant, advanced one atomic access at a time.
///
/// A participant is a slot index below the capacity chosen at construction;
/// each concurrent acquisition attempt must use its own slot, and a slot may
/// be reused only after its previous acquisition has fully released.
pub struct ExclusiveLock<T> {
    /// The queue tail: index of the most recently enqueued slot, or `None`
    /// when no one holds or waits for the lock.
    pub tail: Option<usize>,
    /// The caller-supplied queue nodes, one per slot.
    pub nodes: Vec<QueueNode>,
    /// Each participant's private wait flag; `true` means still waiting.
    pub wait_flags: Vec<bool>,
    /// Each participant's position in the protocol.
    pub phases: Vec<Phase>,
    /// The protected value.
    pub value: T,
    /// The logical queue of slots, head first; the head owns the lock.
    pub queue: Ghost<Seq<usize>>,
}

impl<T> ExclusiveLock<T> {
    /// Number of participant slots.
    pub open spec fn capacity_spec(self) -> nat {
        self.nodes@.len()
    }

    /// The lock is completely free: no holder and no waiter.
    pub open spec fn completely_free(self) -> bool {
        self.queue@.len() == 0
    }

    /// Slot `t` currently owns the lock: its handle is live or it is in the
    /// middle of its release.
    pub open spec fn is_owner(self, t: usize) -> bool {
        &&& t < self.phases@.len()
        &&& {
            ||| self.phases@[t as int] is Holding
            ||| self.phases@[t as int] is Confirming
            ||| self.phases@[t as int] is AwaitingSuccessor
        }
    }

    /// The queue position `i` holds a well-formed waiter: it stands directly
    /// behind its predecessor, its wait flag is raised, and it has either not
    /// yet published or is spinning.
    pub open spec fn waiter_ok(self, i: int) -> bool {
        let q = self.queue@;
        &&& (self.phases@[q[i] as int] matches Phase::Enqueued { pred } ==> pred == q[i - 1])
        &&& (self.phases@[q[i] as int] is Enqueued || self.phases@[q[i] as int] is Spinning)
        &&& self.wait_flags@[q[i] as int] == true
    }

    /// The node at queue position `i` signals exactly its published
    /// successor: `None` while the successor (if any) has not published, the
    /// successor's index once it spins.
    pub open spec fn signal_ok(self, i: int) -> bool {
        let q = self.queue@;
        &&& (i < q.len() - 1 ==> self.nodes@[q[i] as int].successor_signal == (
            if self.phases@[q[i + 1] as int] is Spinning {
                Some(q[i + 1])
            } else {
                Option::<usize>::None
            }))
        &&& (i == q.len() - 1 ==> self.nodes@[q[i] as int].successor_signal is None)
    }

    /// The head of the queue owns the lock or is about to: it is spinning on
    /// an already-cleared flag, holding, or completing its release.
    pub open spec fn head_ok(self) -> bool {
        let q = self.queue@;
        q.len() > 0 ==> {
            &&& {
                ||| (self.phases@[q[0] as int] is Spinning && self.wait_flags@[q[0] as int]
                    == false)
                ||| self.phases@[q[0] as int] is Holding
                ||| self.phases@[q[0] as int] is Confirming
                ||| self.phases@[q[0] as int] is AwaitingSuccessor
            }
            &&& (self.phases@[q[0] as int] is AwaitingSuccessor ==> q.len() >= 2)
        }
    }

    /// The protocol invariant, preserved by every step.
    pub open spec fn wf(self) -> bool {
        let q = self.queue@;
        let n = self.nodes@.len();
        &&& self.wait_flags@.len() == n
        &&& self.phases@.len() == n
        &&& forall|i: int| 0 <= i < q.len() ==> (#[trigger] q[i]) < n
        &&& forall|i: int, j: int| 0 <= i < j < q.len() ==> q[i] != q[j]
        &&& forall|t: usize|
            t < n ==> (#[trigger] self.queue@.contains(t) <==> !(self.phases@[t as int] is Idle))
        &&& self.tail == (if q.len() == 0 {
            Option::<usize>::None
        } else {
            Some(q[q.len() - 1])
        })
        &&& self.head_ok()
        &&& forall|i: int| 1 <= i < q.len() ==> #[trigger] self.waiter_ok(i)
        &&& forall|i: int| 0 <= i < q.len() ==> #[trigger] self.signal_ok(i)
    }

    /// A new lock around `value`, completely free, with `capacity` slots all
    /// idle.
    pub fn new(value: T, capacity: usize) -> (r: ExclusiveLock<T>)
        ensures
            r.wf(),
            r.completely_free(),
            r.value == value,
            r.capacity_spec() == capacity,
            r.tail is None,
            forall|t: int| 0 <= t < capacity ==> (#[trigger] r.phases@[t]) is Idle,
            forall|t: int| 0 <= t < capacity ==> (#[trigger] r.nodes@[t]).successor_signal is None,
            forall|t: int| 0 <= t < capacity ==> (#[trigger] r.wait_flags@[t]) == false,
    {
        let mut nodes: Vec<QueueNode> = Vec::new();
        let mut wait_flags: Vec<bool> = Vec::new();
        let mut phases: Vec<Phase> = Vec::new();
        let mut i: usize = 0;
        while i < capacity
            invariant
                i <= capacity,
                nodes@.len() == i,
                wait_flags@.len() == i,
                phases@.len() == i,
                forall|t: int| 0 <= t < i ==> (#[trigger] phases@[t]) is Idle,
                forall|t: int| 0 <= t < i ==> (#[trigger] nodes@[t]).successor_signal is None,
                forall|t: int| 0 <= t < i ==> (#[trigger] wait_flags@[t]) == false,
            decreases capacity - i,
        {
            nodes.push(QueueNode::new());
            wait_flags.push(false);
            phases.push(Phase::Idle);
            i = i + 1;
        }
        ExclusiveLock {
            tail: None,
            nodes,
            wait_flags,
            phases,
            value,
            queue: Ghost(Seq::empty()),
        }
    }

    /// Number of participant slots, as chosen at construction.
    pub fn capacity(&self) -> (r: usize)
        ensures
            r == self.capacity_spec(),
    {
        self.nodes.len()
    }

    /// Whether the lock is completely free right now, read off the tail.
    pub fn is_free(&self) -> (r: bool)
        requires
            self.wf(),
        ensures
            r == self.completely_free(),
    {
        match self.tail {
            None => true,
            Some(_) => false,
        }
    }

    /// An idle slot stands nowhere in the queue.
    proof fn lemma_idle_not_queued(self, t: usize)
        requires
            self.wf(),
            t < self.capacity_spec(),
            self.phases@[t as int] is Idle,
        ensures
            forall|i: int| 0 <= i < self.queue@.len() ==> (#[trigger] self.queue@[i]) != t,
    {
        assert forall|i: int| 0 <= i < self.queue@.len() implies (#[trigger] self.queue@[i])
            != t by {
            if self.queue@[i] == t {
                assert(self.queue@.contains(t));
            }
        }
    }

    /// A slot that holds the lock or is completing its release heads the
    /// queue: every other queued slot is still enqueued or spinning.
    proof fn lemma_owner_is_head(self, t: usize)
        requires
            self.wf(),
            t < self.capacity_spec(),
            self.is_owner(t),
        ensures
            self.queue@.len() > 0,
            self.queue@[0] == t,
    {
        assert(self.queue@.contains(t));
        let i = choose|i: int| 0 <= i < self.queue@.len() && self.queue@[i] == t;
        if i != 0 {
            assert(self.waiter_ok(i));
        }
    }

    /// A spinner whose wait flag has been cleared heads the queue: waiters
    /// behind the head always see a raised flag.
    proof fn lemma_cleared_spinner_is_head(self, t: usize)
        requires
            self.wf(),
            t < self.capacity_spec(),
            self.phases@[t as int] is Spinning,
            self.wait_flags@[t as int] == false,
        ensures
            self.queue@.len() > 0,
            self.queue@[0] == t,
    {
        assert(self.queue@.contains(t));
        let i = choose|i: int| 0 <= i < self.queue@.len() && self.queue@[i] == t;
        if i != 0 {
            assert(self.waiter_ok(i));
        }
    }

    /// Non-blocking acquisition: reset the slot's node, then a single
    /// compare-and-swap of the tail from null to the slot.  Succeeds exactly
    /// when the lock was completely free; on failure nothing changes beyond
    /// the reset of the caller's own node.
    pub fn try_acquire(&mut self, node: usize) -> (r: Option<LockHandle>)
        requires
            old(self).wf(),
            node < old(self).capacity_spec(),
            old(self).phases@[node as int] is Idle,
        ensures
            final(self).wf(),
            final(self).value == old(self).value,
            final(self).capacity_spec() == old(self).capacity_spec(),
            final(self).nodes@ == old(self).nodes@.update(
                node as int,
                (QueueNode { successor_signal: None }),
            ),
            final(self).wait_flags@ == old(self).wait_flags@,
            r is Some <==> old(self).completely_free(),
            r matches Some(h) ==> {
                &&& h.node == node
                &&& final(self).queue@ == seq![node]
                &&& final(self).tail == Some(node)
                &&& final(self).phases@ == old(self).phases@.update(node as int, Phase::Holding)
            },
            r is None ==> {
                &&& final(self).queue@ == old(self).queue@
                &&& final(self).tail == old(self).tail
                &&& final(self).phases@ == old(self).phases@
            },
    {
        self.nodes.set(node, QueueNode { successor_signal: None });
        proof {
            old(self).lemma_idle_not_queued(node);
        }
        match self.tail {
            None => {
                self.tail = Some(node);
                self.phases.set(node, Phase::Holding);
                proof {
                    self.queue@ = seq![node];
                    assert(old(self).queue@.len() == 0);
                    assert forall|t: usize| t < self.nodes@.len() implies (
                    #[trigger] self.queue@.contains(t) <==> !(self.phases@[t as int]
                        is Idle)) by {
                        assert(!old(self).queue@.contains(t));
                        if self.queue@.contains(t) {
                            let i = choose|i: int|
                                0 <= i < self.queue@.len() && self.queue@[i] == t;
                            assert(i == 0);
                            assert(t == node);
                        }
                        if t == node {
                            assert(self.queue@[0] == t);
                            assert(self.queue@.contains(t));
                        }
                    }
                    assert(self.signal_ok(0));
                }
                Some(LockHandle { node })
            },
            Some(_) => {
                proof {
                    assert forall|i: int| 0 <= i < self.queue@.len() implies #[trigger] self
                        .signal_ok(i) by {
                        assert(old(self).signal_ok(i));
                    }
                    assert forall|i: int| 1 <= i < self.queue@.len() implies #[trigger] self
                        .waiter_ok(i) by {
                        assert(old(self).waiter_ok(i));
                    }
                }
                None
            },
        }
    }

    /// The enqueue step of a blocking acquisition: reset the slot's node,
    /// then atomically swap the tail to the slot.  If the previous tail was
    /// null the lock is held at once; otherwise the slot stands behind the
    /// previous tail with its wait flag raised and must publish next.
    pub fn acquire_enqueue(&mut self, node: usize) -> (r: AcquireStep)
        requires
            old(self).wf(),
            node < old(self).capacity_spec(),
            old(self).phases@[node as int] is Idle,
        ensures
            final(self).wf(),
            final(self).value == old(self).value,
            final(self).capacity_spec() == old(self).capacity_spec(),
            final(self).queue@ == old(self).queue@.push(node),
            final(self).tail == Some(node),
            final(self).nodes@ == old(self).nodes@.update(
                node as int,
                (QueueNode { successor_signal: None }),
            ),
            r is Acquired <==> old(self).completely_free(),
            r matches AcquireStep::Acquired(h) ==> {
                &&& h.node == node
                &&& final(self).phases@ == old(self).phases@.update(node as int, Phase::Holding)
                &&& final(self).wait_flags@ == old(self).wait_flags@
            },
            r is MustPublish ==> {
                &&& final(self).phases@ == old(self).phases@.update(
                    node as int,
                    (Phase::Enqueued { pred: old(self).queue@.last() }),
                )
                &&& final(self).wait_flags@ == old(self).wait_flags@.update(node as int, true)
            },
    {
        self.nodes.set(node, QueueNode { successor_signal: None });
        let prev = self.tail;
        self.tail = Some(node);
        proof {
            old(self).lemma_idle_not_queued(node);
            self.queue@ = self.queue@.push(node);
        }
        let ghost old_q = old(self).queue@;
        proof {
            assert forall|t: usize| t < self.nodes@.len() implies (#[trigger] self
                .queue@.contains(t) <==> old_q.contains(t) || t == node) by {
                if self.queue@.contains(t) {
                    let i = choose|i: int|
                        0 <= i < self.queue@.len() && self.queue@[i] == t;
                    if i < old_q.len() {
                        assert(old_q[i] == t);
                    }
                }
                if old_q.contains(t) {
                    let i = choose|i: int| 0 <= i < old_q.len() && old_q[i] == t;
                    assert(self.queue@[i] == t);
                }
                if t == node {
                    assert(self.queue@[old_q.len() as int] == t);
                }
            }
        }
        match prev {
            None => {
                self.phases.set(node, Phase::Holding);
                proof {
                    assert(self.queue@ =~= seq![node]);
                    assert(self.signal_ok(0));
                }
                AcquireStep::Acquired(LockHandle { node })
            },
            Some(p) => {
                self.wait_flags.set(node, true);
                self.phases.set(node, Phase::Enqueued { pred: p });
                proof {
                    let q = self.queue@;
                    let len = old_q.len() as int;
                    assert(p == old_q[len - 1]);
                    assert forall|i: int| 1 <= i < q.len() implies #[trigger] self.waiter_ok(
                        i,
                    ) by {
                        if i < len {
                            assert(old(self).waiter_ok(i));
                            assert(q[i] == old_q[i] && q[i - 1] == old_q[i - 1]);
                        } else {
                            assert(q[i] == node && q[i - 1] == old_q[len - 1]);
                        }
                    }
                    assert forall|i: int| 0 <= i < q.len() implies #[trigger] self.signal_ok(
                        i,
                    ) by {
                        if i < len - 1 {
                            assert(old(self).signal_ok(i));
                            assert(q[i] == old_q[i] && q[i + 1] == old_q[i + 1]);
                        } else if i == len - 1 {
                            assert(old(self).signal_ok(i));
                            assert(q[i] == old_q[i] && q[i + 1] == node);
                        } else {
                            assert(q[i] == node);
                        }
                    }
                }
                AcquireStep::MustPublish
            },
        }
    }

    /// The publish step of a blocking acquisition: the queued waiter stores
    /// the index of its wait flag into its predecessor's node, opening the
    /// hand-off channel, and then spins.
    pub fn acquire_publish(&mut self, node: usize)
        requires
            old(self).wf(),
            node < old(self).capacity_spec(),
            old(self).phases@[node as int] is Enqueued,
        ensures
            final(self).wf(),
            final(self).value == old(self).value,
            final(self).capacity_spec() == old(self).capacity_spec(),
            final(self).queue@ == old(self).queue@,
            final(self).tail == old(self).tail,
            final(self).wait_flags@ == old(self).wait_flags@,
            final(self).phases@ == old(self).phases@.update(node as int, Phase::Spinning),
            final(self).nodes@ == old(self).nodes@.update(
                old(self).phases@[node as int]->pred as int,
                (QueueNode { successor_signal: Some(node) }),
            ),
    {
        let ghost old_q = old(self).queue@;
        proof {
            assert(self.queue@.contains(node));
        }
        let ghost i0 = choose|i: int| 0 <= i < old_q.len() && old_q[i] == node;
        proof {
            assert(i0 >= 1);
            assert(self.waiter_ok(i0));
        }
        let ph = self.phases[node];
        match ph {
            Phase::Enqueued { pred } => {
                proof {
                    assert(pred == old_q[i0 - 1]);
                }
                self.nodes.set(pred, QueueNode { successor_signal: Some(node) });
                self.phases.set(node, Phase::Spinning);
                proof {
                    let q = self.queue@;
                    assert forall|i: int| 1 <= i < q.len() implies #[trigger] self.waiter_ok(
                        i,
                    ) by {
                        assert(old(self).waiter_ok(i));
                        if q[i] == node {
                            assert(i == i0);
                        }
                    }
                    assert forall|i: int| 0 <= i < q.len() implies #[trigger] self.signal_ok(
                        i,
                    ) by {
                        assert(old(self).signal_ok(i));
                        if i != i0 - 1 {
                            assert(q[i] != pred);
                            if 0 <= i + 1 < q.len() && q[i + 1] == node {
                                assert(i + 1 == i0);
                            }
                        }
                    }
                }
            },
            _ => {
                proof {
                    assert(false);
                }
            },
        }
    }

    /// One spin of a queued waiter on its own wait flag.  When the flag has
    /// been cleared by its predecessor's release the waiter heads the queue
    /// and the lock is acquired; otherwise the step issues the spin hint and
    /// the waiter must poll again.
    pub fn acquire_poll(&mut self, node: usize) -> (r: Option<LockHandle>)
        requires
            old(self).wf(),
            node < old(self).capacity_spec(),
            old(self).phases@[node as int] is Spinning,
        ensures
            final(self).wf(),
            final(self).value == old(self).value,
            final(self).capacity_spec() == old(self).capacity_spec(),
            final(self).queue@ == old(self).queue@,
            final(self).tail == old(self).tail,
            final(self).nodes@ == old(self).nodes@,
            final(self).wait_flags@ == old(self).wait_flags@,
            r is Some <==> old(self).wait_flags@[node as int] == false,
            r matches Some(h) ==> {
                &&& h.node == node
                &&& node == old(self).queue@[0]
                &&& final(self).phases@ == old(self).phases@.update(node as int, Phase::Holding)
            },
            r is None ==> final(self).phases@ == old(self).phases@,
    {
        if !self.wait_flags[node] {
            proof {
                old(self).lemma_cleared_spinner_is_head(node);
            }
            self.phases.set(node, Phase::Holding);
            proof {
                let q = self.queue@;
                assert forall|i: int| 1 <= i < q.len() implies #[trigger] self.waiter_ok(i) by {
                    assert(old(self).waiter_ok(i));
                    assert(q[i] != node);
                }
                assert forall|i: int| 0 <= i < q.len() implies #[trigger] self.signal_ok(i) by {
                    assert(old(self).signal_ok(i));
                    if 0 <= i + 1 < q.len() {
                        assert(q[i + 1] != node);
                    }
                }
            }
            Some(LockHandle { node })
        } else {
            pause();
            None
        }
    }

    /// The release step run when the handle is given up: read the own node's
    /// successor signal.  If a successor has published, clear its wait flag —
    /// the lock is handed off without spinning.  Otherwise the queue must be
    /// confirmed empty before the lock may be marked free.
    pub fn release(&mut self, handle: LockHandle) -> (r: ReleaseStep)
        requires
            old(self).wf(),
            handle.node < old(self).capacity_spec(),
            old(self).phases@[handle.node as int] is Holding,
        ensures
            final(self).wf(),
            final(self).value == old(self).value,
            final(self).capacity_spec() == old(self).capacity_spec(),
            final(self).tail == old(self).tail,
            final(self).nodes@ == old(self).nodes@,
            r is HandedOff || r is Unconfirmed,
            r is HandedOff <==> old(self).nodes@[handle.node as int].successor_signal is Some,
            r matches ReleaseStep::HandedOff(s) ==> {
                &&& old(self).queue@.len() >= 2
                &&& s == old(self).queue@[1]
                &&& final(self).queue@ == old(self).queue@.drop_first()
                &&& final(self).phases@ == old(self).phases@.update(
                    handle.node as int,
                    Phase::Idle,
                )
                &&& final(self).wait_flags@ == old(self).wait_flags@.update(s as int, false)
                &&& !final(self).completely_free()
            },
            r is Unconfirmed ==> {
                &&& final(self).queue@ == old(self).queue@
                &&& final(self).phases@ == old(self).phases@.update(
                    handle.node as int,
                    Phase::Confirming,
                )
                &&& final(self).wait_flags@ == old(self).wait_flags@
            },
    {
        let t = handle.node;
        proof {
            old(self).lemma_owner_is_head(t);
        }
        match self.nodes[t].successor_signal {
            Some(s) => {
                proof {
                    assert(old(self).signal_ok(0));
                    assert(old(self).queue@.len() >= 2);
                    assert(s == old(self).queue@[1]);
                }
                self.wait_flags.set(s, false);
                self.phases.set(t, Phase::Idle);
                proof {
                    self.queue@ = self.queue@.drop_first();
                    handoff_preserves_wf(*old(self), *self, t, s);
                }
                ReleaseStep::HandedOff(s)
            },
            None => {
                self.phases.set(t, Phase::Confirming);
                proof {
                    let q = self.queue@;
                    assert forall|i: int| 1 <= i < q.len() implies #[trigger] self.waiter_ok(
                        i,
                    ) by {
                        assert(old(self).waiter_ok(i));
                        assert(q[0] != q[i]);
                    }
                    assert forall|i: int| 0 <= i < q.len() implies #[trigger] self.signal_ok(
                        i,
                    ) by {
                        assert(old(self).signal_ok(i));
                        if 0 <= i + 1 < q.len() {
                            assert(q[0] != q[i + 1]);
                        }
                    }
                }
                ReleaseStep::Unconfirmed
            },
        }
    }

    /// The confirmation step of a release that found no successor: a single
    /// compare-and-swap of the tail from the own node back to null.  Success
    /// means the queue really was empty and the lock is now fully free;
    /// failure means a successor swapped itself in concurrently — it exists
    /// but has not published yet, and must be awaited.
    pub fn release_confirm_free(&mut self, node: usize) -> (r: ReleaseStep)
        requires
            old(self).wf(),
            node < old(self).capacity_spec(),
            old(self).phases@[node as int] is Confirming,
        ensures
            final(self).wf(),
            final(self).value == old(self).value,
            final(self).capacity_spec() == old(self).capacity_spec(),
            final(self).nodes@ == old(self).nodes@,
            final(self).wait_flags@ == old(self).wait_flags@,
            r is Freed || r is SuccessorPending,
            r is Freed <==> old(self).tail == Some(node),
            r is Freed <==> old(self).queue@.len() == 1,
            r is Freed ==> {
                &&& final(self).completely_free()
                &&& final(self).tail is None
                &&& final(self).phases@ == old(self).phases@.update(node as int, Phase::Idle)
            },
            r is SuccessorPending ==> {
                &&& old(self).queue@.len() >= 2
                &&& final(self).queue@ == old(self).queue@
                &&& final(self).tail == old(self).tail
                &&& final(self).phases@ == old(self).phases@.update(
                    node as int,
                    Phase::AwaitingSuccessor,
                )
            },
    {
        proof {
            old(self).lemma_owner_is_head(node);
        }
        let at_tail = match self.tail {
            Some(p) => p == node,
            None => false,
        };
        if at_tail {
            self.tail = None;
            self.phases.set(node, Phase::Idle);
            proof {
                let q = old(self).queue@;
                assert(q[0] == node && q[q.len() - 1] == node);
                if q.len() >= 2 {
                    assert(q[0] != q[q.len() - 1]);
                }
                self.queue@ = Seq::empty();
                assert forall|u: usize| u < self.nodes@.len() implies (#[trigger] self
                    .queue@.contains(u) <==> !(self.phases@[u as int] is Idle)) by {
                    assert(!self.queue@.contains(u));
                    if u != node && !(self.phases@[u as int] is Idle) {
                        assert(q.contains(u));
                        let i = choose|i: int| 0 <= i < q.len() && q[i] == u;
                        assert(i == 0);
                    }
                }
            }
            ReleaseStep::Freed
        } else {
            self.phases.set(node, Phase::AwaitingSuccessor);
            proof {
                let q = self.queue@;
                if q.len() == 1 {
                    assert(old(self).tail == Some(node));
                }
                assert forall|i: int| 1 <= i < q.len() implies #[trigger] self.waiter_ok(i) by {
                    assert(old(self).waiter_ok(i));
                    assert(q[0] != q[i]);
                }
                assert forall|i: int| 0 <= i < q.len() implies #[trigger] self.signal_ok(i) by {
                    assert(old(self).signal_ok(i));
                    if 0 <= i + 1 < q.len() {
                        assert(q[0] != q[i + 1]);
                    }
                }
            }
            ReleaseStep::SuccessorPending
        }
    }

    /// One spin of a releaser waiting out the enqueue race: re-read the own
    /// node's successor signal.  Once the mid-enqueue successor has
    /// published, clear its wait flag and the hand-off is complete; until
    /// then issue the spin hint and check again.
    pub fn release_await_successor(&mut self, node: usize) -> (r: ReleaseStep)
        requires
            old(self).wf(),
            node < old(self).capacity_spec(),
            old(self).phases@[node as int] is AwaitingSuccessor,
        ensures
            final(self).wf(),
            final(self).value == old(self).value,
            final(self).capacity_spec() == old(self).capacity_spec(),
            final(self).tail == old(self).tail,
            final(self).nodes@ == old(self).nodes@,
            r is HandedOff || r is StillWaiting,
            r is HandedOff <==> old(self).nodes@[node as int].successor_signal is Some,
            r matches ReleaseStep::HandedOff(s) ==> {
                &&& old(self).queue@.len() >= 2
                &&& s == old(self).queue@[1]
                &&& final(self).queue@ == old(self).queue@.drop_first()
                &&& final(self).phases@ == old(self).phases@.update(node as int, Phase::Idle)
                &&& final(self).wait_flags@ == old(self).wait_flags@.update(s as int, false)
                &&& !final(self).completely_free()
            },
            r is StillWaiting ==> *final(self) == *old(self),
    {
        proof {
            old(self).lemma_owner_is_head(node);
        }
        match self.nodes[node].successor_signal {
            Some(s) => {
                proof {
                    assert(old(self).signal_ok(0));
                    assert(old(self).queue@.len() >= 2);
                    assert(s == old(self).queue@[1]);
                }
                self.wait_flags.set(s, false);
                self.phases.set(node, Phase::Idle);
                proof {
                    self.queue@ = self.queue@.drop_first();
                    handoff_preserves_wf(*old(self), *self, node, s);
                }
                ReleaseStep::HandedOff(s)
            },
            None => {
                pause();
                ReleaseStep::StillWaiting
            },
        }
    }

    /// Read access to the protected value through a live handle.
    pub fn read(&self, handle: &LockHandle) -> (r: &T)
        requires
            self.wf(),
            handle.node < self.capacity_spec(),
            self.phases@[handle.node as int] is Holding,
        ensures
            *r == self.value,
    {
        &self.value
    }

    /// Write access to the protected value through a live handle: the holder
    /// may mutate it in place, and no protocol state moves.
    pub fn value_mut(&mut self, handle: &LockHandle) -> (r: &mut T)
        requires
            old(self).wf(),
            handle.node < old(self).capacity_spec(),
            old(self).phases@[handle.node as int] is Holding,
        ensures
            *r == old(self).value,
            final(self).value == *final(r),
            final(self).tail == old(self).tail,
            final(self).nodes@ == old(self).nodes@,
            final(self).wait_flags@ == old(self).wait_flags@,
            final(self).phases@ == old(self).phases@,
            final(self).queue@ == old(self).queue@,
    {
        &mut self.value
    }

    /// Replace the protected value through a live handle.
    pub fn write(&mut self, handle: &LockHandle, v: T)
        requires
            old(self).wf(),
            handle.node < old(self).capacity_spec(),
            old(self).phases@[handle.node as int] is Holding,
        ensures
            final(self).wf(),
            final(self).value == v,
            final(self).tail == old(self).tail,
            final(self).nodes@ == old(self).nodes@,
            final(self).wait_flags@ == old(self).wait_flags@,
            final(self).phases@ == old(self).phases@,
            final(self).queue@ == old(self).queue@,
    {
        self.value = v;
        proof {
            lemma_wf_value_independent(*old(self), *self);
        }
    }

    /// Direct mutable access that bypasses the locking protocol: sound only
    /// because the exclusive borrow of the whole lock means no handle is
    /// outstanding and no acquisition is in flight.
    pub fn get_mut(&mut self) -> (r: &mut T)
        requires
            old(self).wf(),
            old(self).completely_free(),
        ensures
            *r == old(self).value,
            final(self).value == *final(r),
            final(self).tail == old(self).tail,
            final(self).nodes@ == old(self).nodes@,
            final(self).wait_flags@ == old(self).wait_flags@,
            final(self).phases@ == old(self).phases@,
            final(self).queue@ == old(self).queue@,
            final(self).completely_free(),
    {
        &mut self.value
    }

    /// Consume the lock and hand back the protected value, exactly as it was
    /// stored; legal only while no handle is outstanding and no acquisition
    /// is in flight.
    pub fn unwrap(self) -> (r: T)
        requires
            self.completely_free(),
        ensures
            r == self.value,
    {
        let ExclusiveLock { value, .. } = self;
        value
    }
}

/// The protocol invariant never depends on the protected value: any state
/// that agrees with a well-formed one on everything except the value is
/// itself well-formed.  This is what makes `value_mut` and `get_mut` sound:
/// whatever a caller writes through the returned reference, the invariant
/// can be re-established with this lemma.
pub proof fn lemma_wf_value_independent<T>(a: ExclusiveLock<T>, b: ExclusiveLock<T>)
    requires
        a.wf(),
        b.tail == a.tail,
        b.nodes@ == a.nodes@,
        b.wait_flags@ == a.wait_flags@,
        b.phases@ == a.phases@,
        b.queue@ == a.queue@,
    ensures
        b.wf(),
{
    assert forall|i: int| 1 <= i < b.queue@.len() implies #[trigger] b.waiter_ok(i) by {
        assert(a.waiter_ok(i));
    }
    assert forall|i: int| 0 <= i < b.queue@.len() implies #[trigger] b.signal_ok(i) by {
        assert(a.signal_ok(i));
    }
}

/// A hand-off from the head `t` to its published successor `s` preserves the
/// protocol invariant: the queue loses its head, `s` moves to the front with
/// its wait flag cleared, and everything behind shifts up by one.
proof fn handoff_preserves_wf<T>(
    pre: ExclusiveLock<T>,
    post: ExclusiveLock<T>,
    t: usize,
    s: usize,
)
    requires
        pre.wf(),
        t < pre.capacity_spec(),
        pre.queue@.len() >= 2,
        pre.queue@[0] == t,
        s == pre.queue@[1],
        pre.phases@[s as int] is Spinning,
        post.tail == pre.tail,
        post.nodes@ == pre.nodes@,
        post.wait_flags@ == pre.wait_flags@.update(s as int, false),
        post.phases@ == pre.phases@.update(t as int, Phase::Idle),
        post.queue@ == pre.queue@.drop_first(),
    ensures
        post.wf(),
{
    let q = pre.queue@;
    let q2 = post.queue@;
    let n = pre.nodes@.len();
    assert(q2.len() == q.len() - 1);
    assert(q[0] != q[1]);
    assert forall|i: int| 0 <= i < q2.len() implies (#[trigger] q2[i]) < n by {
        assert(q2[i] == q[i + 1]);
    }
    assert forall|u: usize| u < n implies (#[trigger] q2.contains(u) <==> !(post.phases@[u as int]
        is Idle)) by {
        if q2.contains(u) {
            let i = choose|i: int| 0 <= i < q2.len() && q2[i] == u;
            assert(q[i + 1] == u);
            assert(q.contains(u));
            assert(q[0] != q[i + 1]);
        }
        if !(post.phases@[u as int] is Idle) {
            assert(!(pre.phases@[u as int] is Idle));
            assert(q.contains(u));
            let i = choose|i: int| 0 <= i < q.len() && q[i] == u;
            assert(i >= 1);
            assert(q2[i - 1] == u);
            assert(q2.contains(u));
        }
    }
    assert(q2[q2.len() - 1] == q[q.len() - 1]);
    assert(q2[0] == s);
    assert forall|i: int| 1 <= i < q2.len() implies #[trigger] post.waiter_ok(i) by {
        assert(pre.waiter_ok(i + 1));
        assert(q2[i] == q[i + 1] && q2[i - 1] == q[i]);
        assert(q[0] != q[i + 1]);
        assert(q[1] != q[i + 1]);
    }
    assert forall|i: int| 0 <= i < q2.len() implies #[trigger] post.signal_ok(i) by {
        assert(pre.signal_ok(i + 1));
        assert(q2[i] == q[i + 1]);
        if i < q2.len() - 1 {
            assert(q2[i + 1] == q[i + 2]);
            assert(q[0] != q[i + 2]);
        }
    }
}

} // verus!
