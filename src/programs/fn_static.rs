use vstd::prelude::*;

verus! {

/// Calls the closure behind `some_closure` on 1.
pub fn call_with_one<F: Fn(i32) -> i32>(some_closure: &F) -> (r: i32)
    requires
        some_closure.requires((1i32,)),
    ensures
        some_closure.ensures((1i32,), r),
{
    some_closure(1)
}

/// `y + 1`, computed by a borrowed closure that captures `y`.
pub fn f(y: i32) -> (r: i32)
    requires
        y < i32::MAX,
    ensures
        r == y + 1,
{
    let c = |x: i32| -> (z: i32)
        requires
            i32::MIN <= x + y <= i32::MAX,
        ensures
            z == x + y,
        { x + y };
    call_with_one(&c)
}

} // verus!
