//! Small helpers shared across the compiler.

use vstd::prelude::*;

verus! {

/// Runs `f`, kept out of line so that a rarely taken path stays out of its caller.
#[inline(never)]
pub fn outline<F: FnOnce() -> R, R>(f: F) -> (r: R)
    requires
        f.requires(()),
    ensures
        f.ensures((), r),
{
    f()
}

/// Marks a fatal error that was already reported.
pub struct FatalErrorMarker;

} // verus!
