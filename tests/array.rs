use crucible::array::Array;

#[test]
fn zeroed_reads_zero_everywhere() {
    let a: Array<u32> = Array::zeroed();
    assert_eq!(a.lookup(0), 0);
    assert_eq!(a.lookup(7), 0);
    assert_eq!(a.lookup(usize::MAX), 0);
    let b: Array<bool> = Array::zeroed();
    assert!(!b.lookup(3));
    let c: Array<char> = Array::zeroed();
    assert_eq!(c.lookup(3), '\0');
    let d: Array<i64> = Array::zeroed();
    assert_eq!(d.lookup(12345), 0);
}

#[test]
fn update_changes_only_its_index() {
    let a: Array<u8> = Array::zeroed();
    let b = a.update(5, 42);
    assert_eq!(b.lookup(5), 42);
    assert_eq!(b.lookup(4), 0);
    assert_eq!(b.lookup(6), 0);
    let c = b.update(usize::MAX, 9);
    assert_eq!(c.lookup(usize::MAX), 9);
    assert_eq!(c.lookup(5), 42);
}

#[test]
fn update_overwrites_same_index() {
    let a: Array<i32> = Array::zeroed();
    let b = a.update(3, -1).update(3, 17);
    assert_eq!(b.lookup(3), 17);
    let c = b.update(3, 0);
    assert_eq!(c.lookup(3), 0);
    assert_eq!(b.lookup(3), 17);
}

#[test]
fn copies_are_independent() {
    let a: Array<u64> = Array::zeroed().update(1, 10);
    let b = a.clone();
    let c = a.update(1, 99);
    assert_eq!(b.lookup(1), a.lookup(1));
    assert_eq!(b.lookup(1), 10);
    assert_eq!(c.lookup(1), 99);
    assert_eq!(a.lookup(1), 10);
}
