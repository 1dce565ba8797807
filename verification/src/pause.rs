use vstd::prelude::*;

verus! {

/// Relies on std::hint::spin_loop: emits the architecture's spin-wait hint
/// where one exists and is otherwise a no-op; it touches no state and always
/// returns.
#[verifier::external_body]
fn spin_loop_hint() {
    std::hint::spin_loop()
}

/// Spin-wait hint, invoked on every iteration of a busy-wait loop.
///
/// On architectures with a dedicated spin-wait instruction this issues it;
/// elsewhere it degrades to a no-op.  Callers may rely on nothing beyond
/// termination.
#[inline(always)]
pub fn pause() {
    spin_loop_hint()
}

} // verus!
