//! A queue-based mutual-exclusion primitive, modelled and verified as an
//! explicit interleaving state machine.
//!
//! The protocol is the classic allocation-free queue spin-lock: a thread that
//! wants the lock swaps its own queue slot onto an atomic tail pointer; if the
//! queue was empty it owns the lock at once, otherwise it raises a private
//! wait flag, publishes that flag into its predecessor's slot, and spins until
//! the predecessor clears it on release.  Each public step function here
//! performs exactly one access to the shared state, so a driver that calls
//! the steps of several participants in any order explores exactly the
//! interleavings of the real concurrent protocol; the invariant and the proof
//! functions show mutual exclusion, queue order and the release dichotomy for
//! every such interleaving.

pub mod laws;
pub mod lock;
pub mod pause;
