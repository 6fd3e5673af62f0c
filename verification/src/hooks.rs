//! The guard around every interposed call: a call made while the emulator is already
//! handling one on the same thread is not intercepted again.
use vstd::prelude::*;

verus! {

/// Whether the current thread is inside the emulator's handling of an interposed call.
pub struct HandlerFlag {
    pub entered: bool,
}

impl HandlerFlag {
    pub fn new() -> (r: Self)
        ensures
            !r.entered,
    {
        HandlerFlag { entered: false }
    }
}

/// What entering a handler does: it proceeds (`r`) exactly when no handler was entered,
/// and afterwards one is.
pub open spec fn pre_hook_outcome(before: bool, r: bool, after: bool) -> bool {
    r == !before && after
}

/// Enters the handler of an interposed call. Returns `false`, handling nothing, when the
/// thread is already inside one; the call then goes to the real function.
pub fn pre_hook(flag: &mut HandlerFlag) -> (r: bool)
    ensures
        pre_hook_outcome(old(flag).entered, r, final(flag).entered),
{
    if flag.entered {
        return false;
    }
    flag.entered = true;
    true
}

/// Leaves the handler of an interposed call.
pub fn post_hook(flag: &mut HandlerFlag)
    ensures
        !final(flag).entered,
{
    flag.entered = false;
}

/// No re-entry: while a handler runs, a nested interposed call is not handled.
pub proof fn lemma_no_reentry(f0: bool, r1: bool, f1: bool, r2: bool, f2: bool)
    requires
        pre_hook_outcome(f0, r1, f1),
        pre_hook_outcome(f1, r2, f2),
    ensures
        !r2,
{
}

/// Once the handler has been left (the flag `post_hook` leaves), the next interposed
/// call is handled.
pub proof fn lemma_enter_after_leave(left: bool, r: bool, f: bool)
    requires
        !left,
        pre_hook_outcome(left, r, f),
    ensures
        r,
        f,
{
}

} // verus!
