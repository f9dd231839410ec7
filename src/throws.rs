use vstd::prelude::*;

verus! {

/// Turns a condition into a `Result`: `Ok(())` when it holds, `Err(e)` otherwise.
pub fn require<T>(cod: bool, e: T) -> (r: Result<(), T>)
    ensures
        cod ==> r == Ok::<(), T>(()),
        !cod ==> r == Err::<(), T>(e),
{
    if !cod {
        return Err(e);
    }
    Ok(())
}

/// Unwraps a result that the caller knows to be `Ok`.
pub fn throw<V>(r: Result<V, String>) -> (v: V)
    requires
        r is Ok,
    ensures
        v == r->Ok_0,
{
    r.unwrap()
}

} // verus!
