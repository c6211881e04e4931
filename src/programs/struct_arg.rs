use vstd::prelude::*;

verus! {

/// A struct passed by value.
pub struct S {
    pub x: u8,
    pub y: i32,
}

/// The `x` field of `s`.
pub fn f(s: S) -> (r: u8)
    ensures
        r == s.x,
{
    s.x
}

} // verus!
