use vstd::prelude::*;

verus! {

/// `x` shifted left by one bit: twice `x`, modulo 256.
pub fn f(x: u8) -> (r: u8)
    ensures
        r as int == (2 * x as int) % 256,
{
    let r = x << 1u32;
    assert(r == ((2 * (x as u16)) % 256) as u8) by (bit_vector)
        requires
            r == x << 1u32,
    ;
    r
}

} // verus!
