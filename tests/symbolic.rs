use crucible::path::Path;
use crucible::symbolic::{prefix, Symbolic};

#[test]
fn unsigned_values_take_the_low_bits() {
    let mut p = Path::new(vec![0x1ff, 0x1_2345, 7, u128::MAX, 5]);
    assert_eq!(<u8 as Symbolic>::symbolic(&mut p, "a"), 0xff);
    assert_eq!(<u16 as Symbolic>::symbolic(&mut p, "b"), 0x2345);
    assert_eq!(<u32 as Symbolic>::symbolic(&mut p, "c"), 7);
    assert_eq!(<u128 as Symbolic>::symbolic(&mut p, "d"), u128::MAX);
    assert_eq!(<u64 as Symbolic>::symbolic(&mut p, "e"), 5);
}

#[test]
fn requests_past_the_choices_get_zero() {
    let mut p = Path::new(vec![3]);
    assert_eq!(<u8 as Symbolic>::symbolic(&mut p, "a"), 3);
    assert_eq!(<u8 as Symbolic>::symbolic(&mut p, "b"), 0);
    assert_eq!(<i64 as Symbolic>::symbolic(&mut p, "c"), 0);
    assert_eq!(p.trace().len(), 3);
}

#[test]
fn signed_values_reinterpret_unsigned_bits() {
    let mut p = Path::new(vec![0x80, 0x80, 0xffff, 0xffff, u128::MAX, u128::MAX]);
    let s = <i8 as Symbolic>::symbolic(&mut p, "s");
    let u = <u8 as Symbolic>::symbolic(&mut p, "u");
    assert_eq!(s, -128);
    assert_eq!(s as u8, u);
    let s16 = <i16 as Symbolic>::symbolic(&mut p, "s16");
    let u16v = <u16 as Symbolic>::symbolic(&mut p, "u16");
    assert_eq!(s16, -1);
    assert_eq!(s16 as u16, u16v);
    assert_eq!(<i128 as Symbolic>::symbolic(&mut p, "s128"), -1);
    assert_eq!(<isize as Symbolic>::symbolic(&mut p, "isize"), -1);
}

#[test]
fn pointer_sized_values_keep_their_bits() {
    let mut p = Path::new(vec![12, usize::MAX as u128]);
    assert_eq!(<usize as Symbolic>::symbolic(&mut p, "n"), 12);
    assert_eq!(<usize as Symbolic>::symbolic(&mut p, "m"), usize::MAX);
}

#[test]
fn array_elements_are_independent() {
    let mut p = Path::new(vec![1, 2, 3]);
    let a = <[u8; 3] as Symbolic>::symbolic(&mut p, "arr");
    assert_eq!(a, [1, 2, 3]);
    assert_ne!(a[0], a[1]);
    let mut q = Path::new(vec![4, 5, 6, 7]);
    let b = <[[u16; 2]; 2] as Symbolic>::symbolic(&mut q, "grid");
    assert_eq!(b, [[4, 5], [6, 7]]);
}

#[test]
fn empty_array_still_takes_one_draw() {
    let mut p = Path::new(vec![9, 10]);
    let a = <[u32; 0] as Symbolic>::symbolic(&mut p, "none");
    assert_eq!(a.len(), 0);
    assert_eq!(<u32 as Symbolic>::symbolic(&mut p, "next"), 10);
}

#[test]
fn trace_records_descriptions_and_values() {
    let mut p = Path::new(vec![1, 2]);
    let _ = <[u8; 2] as Symbolic>::symbolic(&mut p, "pair");
    let t = p.trace();
    assert_eq!(t.len(), 2);
    assert_eq!(t[0], ("pair", 1));
    assert_eq!(t[1], ("pair", 2));
}

#[test]
fn prefix_realizes_every_length_up_to_the_sequence() {
    let xs = [10, 20, 30];
    let expected: [&[i32]; 4] = [&[], &[10], &[10, 20], &[10, 20, 30]];
    for (len, want) in expected.iter().enumerate() {
        let mut p = Path::new(vec![len as u128]);
        let got = prefix(&mut p, &xs);
        assert_eq!(got, Some(*want));
        assert!(p.is_feasible());
        assert_eq!(p.trace()[0], ("prefix_len", len as u128));
    }
}

#[test]
fn prefix_never_realizes_longer_lengths() {
    let xs = [10, 20, 30];
    for len in [4u128, 5, 1000, u128::MAX] {
        let mut p = Path::new(vec![len]);
        assert_eq!(prefix(&mut p, &xs), None);
        assert!(!p.is_feasible());
    }
}

#[test]
fn prefix_of_empty_sequence() {
    let xs: [u8; 0] = [];
    let mut p = Path::new(vec![]);
    assert_eq!(prefix(&mut p, &xs), Some(&xs[..]));
    let mut q = Path::new(vec![1]);
    assert_eq!(prefix(&mut q, &xs), None);
}

#[test]
fn false_condition_kills_the_path_for_good() {
    let mut p = Path::new(vec![0, 0]);
    p.add_condition(true);
    assert!(p.is_feasible());
    p.add_condition(false);
    assert!(!p.is_feasible());
    p.add_condition(true);
    assert!(!p.is_feasible());
    let xs = [1, 2, 3];
    assert_eq!(prefix(&mut p, &xs), None);
    let _ = <u8 as Symbolic>::symbolic(&mut p, "after");
    assert!(!p.is_feasible());
}
