use vstd::prelude::*;

verus! {

/// The argument that `crux_test` runs `f` on.
pub const ARG: i32 = 1;

/// Calls `f` on 1, through `FnOnce`.
pub fn call_it<F: FnOnce(i32) -> i32>(f: F) -> (r: i32)
    requires
        f.requires((1i32,)),
    ensures
        f.ensures((1i32,), r),
{
    f(1)
}

/// `x + 1`, computed by a closure that captures `x`.
pub fn f(x: i32) -> (r: i32)
    requires
        x < i32::MAX,
    ensures
        r == x + 1,
{
    let add_x = |y: i32| -> (z: i32)
        requires
            i32::MIN <= x + y <= i32::MAX,
        ensures
            z == x + y,
        { x + y };
    call_it(add_x)
}

/// `f` on `ARG`.
pub fn crux_test() -> (r: i32)
    ensures
        r == ARG + 1,
{
    f(ARG)
}

} // verus!
