use vstd::prelude::*;

verus! {

/// Calls `f` on 1, through `FnMut`.
pub fn call_it<F: FnMut(i32) -> i32>(f: F) -> (r: i32)
    requires
        f.requires((1i32,)),
    ensures
        f.ensures((1i32,), r),
{
    let mut f = f;
    f(1)
}

/// Calls an `Fn` on 1 by handing it on as an `FnMut`.
pub fn convert_it<F: Fn(i32) -> i32>(f: F) -> (r: i32)
    requires
        f.requires((1i32,)),
    ensures
        f.ensures((1i32,), r),
{
    call_it(f)
}

/// `x + 1`, computed by a closure that captures `x`.
pub fn f(x: i32) -> (r: i32)
    requires
        x < i32::MAX,
    ensures
        r == x + 1,
{
    let add_x = |y: i32| -> (z: i32)
        requires
            i32::MIN <= x + y <= i32::MAX,
        ensures
            z == x + y,
        { x + y };
    convert_it(add_x)
}

} // verus!
