//! Calls of a function that is handed over as a value.
//!
//! What such a call returns is known to be a result of that very function on
//! those very arguments, also where the function's own contract says little
//! about the result.

use vstd::prelude::*;

verus! {

/// Calls `f` without arguments.
pub(crate) fn call_none<R, F: FnOnce() -> R>(f: F) -> (result: R)
    requires
        call_requires(f, ()),
    ensures
        call_ensures(f, (), result),
{
    f()
}

/// Calls `f` on one argument.
pub(crate) fn call_one<A, R, F: FnOnce(A) -> R>(f: F, a: A) -> (result: R)
    requires
        call_requires(f, (a,)),
    ensures
        call_ensures(f, (a,), result),
{
    f(a)
}

/// Calls `f` on two arguments.
pub(crate) fn call_two<A, B, R, F: FnOnce(A, B) -> R>(f: F, a: A, b: B) -> (result: R)
    requires
        call_requires(f, (a, b)),
    ensures
        call_ensures(f, (a, b), result),
{
    f(a, b)
}

} // verus!
