use vstd::prelude::*;

verus! {

/// The zero value of a type: what an untouched cell of memory reads as.
pub trait Default: Sized {
    /// The zero value, as a mathematical object.
    spec fn spec_default() -> Self;

    fn default() -> (r: Self)
        ensures
            r == Self::spec_default(),
    ;
}

impl Default for () {
    open spec fn spec_default() -> () {
        ()
    }

    fn default() -> (r: ()) {
        ()
    }
}

impl Default for bool {
    open spec fn spec_default() -> bool {
        false
    }

    fn default() -> (r: bool) {
        false
    }
}

impl Default for char {
    open spec fn spec_default() -> char {
        '\x00'
    }

    fn default() -> (r: char) {
        '\x00'
    }
}

impl Default for usize {
    open spec fn spec_default() -> usize {
        0
    }

    fn default() -> (r: usize) {
        0
    }
}

impl Default for u8 {
    open spec fn spec_default() -> u8 {
        0
    }

    fn default() -> (r: u8) {
        0
    }
}

impl Default for u16 {
    open spec fn spec_default() -> u16 {
        0
    }

    fn default() -> (r: u16) {
        0
    }
}

impl Default for u32 {
    open spec fn spec_default() -> u32 {
        0
    }

    fn default() -> (r: u32) {
        0
    }
}

impl Default for u64 {
    open spec fn spec_default() -> u64 {
        0
    }

    fn default() -> (r: u64) {
        0
    }
}

impl Default for u128 {
    open spec fn spec_default() -> u128 {
        0
    }

    fn default() -> (r: u128) {
        0
    }
}

impl Default for isize {
    open spec fn spec_default() -> isize {
        0
    }

    fn default() -> (r: isize) {
        0
    }
}

impl Default for i8 {
    open spec fn spec_default() -> i8 {
        0
    }

    fn default() -> (r: i8) {
        0
    }
}

impl Default for i16 {
    open spec fn spec_default() -> i16 {
        0
    }

    fn default() -> (r: i16) {
        0
    }
}

impl Default for i32 {
    open spec fn spec_default() -> i32 {
        0
    }

    fn default() -> (r: i32) {
        0
    }
}

impl Default for i64 {
    open spec fn spec_default() -> i64 {
        0
    }

    fn default() -> (r: i64) {
        0
    }
}

impl Default for i128 {
    open spec fn spec_default() -> i128 {
        0
    }

    fn default() -> (r: i128) {
        0
    }
}

} // verus!
