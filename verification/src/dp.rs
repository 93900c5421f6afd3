//! The prove-or-fail primitive.
//!
//! A bounds violation is never handled at run time: a call of [`dp_assert`]
//! is accepted only where the verifier can prove the condition, so the
//! violating path is ruled out before the program is built.

use vstd::prelude::*;

verus! {

/// An assertion with no run-time effect. A call verifies only where `cond`
/// is proved to hold, so a call site that could violate it is rejected at
/// verification time rather than aborting at run time.
pub fn dp_assert(cond: bool)
    requires
        cond,
{
}

/// Runs a callable and returns its result. A callable whose precondition
/// holds provably returns normally with a result that meets its
/// postcondition, so no abnormal exit can pass through this call.
pub fn run_guarded<T, F: FnOnce() -> T>(f: F) -> (r: T)
    requires
        call_requires(f, ()),
    ensures
        call_ensures(f, (), r),
{
    f()
}

} // verus!
