use crucible::programs::{bytes_new, conv_fnmut_fn, direct_fnonce, fn_static, shift2, struct_arg};

#[test]
fn fnmut_from_fn_adds_one() {
    assert_eq!(conv_fnmut_fn::f(1), 2);
    assert_eq!(conv_fnmut_fn::f(-5), -4);
    assert_eq!(conv_fnmut_fn::call_it(|y| y * 10), 10);
    assert_eq!(conv_fnmut_fn::convert_it(|y| y - 1), 0);
}

#[test]
fn fnonce_adds_one() {
    assert_eq!(direct_fnonce::f(1), 2);
    assert_eq!(direct_fnonce::crux_test(), 2);
    assert_eq!(direct_fnonce::call_it(|y| y + 41), 42);
}

#[test]
fn borrowed_closure_adds_one() {
    assert_eq!(fn_static::f(2), 3);
    assert_eq!(fn_static::call_with_one(&|x| x * 7), 7);
}

#[test]
fn shift_doubles_modulo_256() {
    assert_eq!(shift2::f(1), 2);
    assert_eq!(shift2::f(200), 144);
    assert_eq!(shift2::f(128), 0);
}

#[test]
fn struct_argument_field() {
    assert_eq!(struct_arg::f(struct_arg::S { x: 42, y: 120 }), 42);
}

#[test]
fn fresh_bytes_buffer_is_empty() {
    bytes_new::f();
    let b = bytes::BytesMut::new();
    assert_eq!(b.len(), 0);
}

#[test]
fn zero_values() {
    assert_eq!(<u8 as crucible::default::Default>::default(), 0);
    assert_eq!(<i128 as crucible::default::Default>::default(), 0);
    assert!(!<bool as crucible::default::Default>::default());
    assert_eq!(<char as crucible::default::Default>::default(), '\0');
    <() as crucible::default::Default>::default();
}
