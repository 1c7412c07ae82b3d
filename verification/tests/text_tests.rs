use ssht::text::{decimal_string, join_strings, push_decimal, push_signed_decimal};

#[test]
fn decimal_of_zero() {
    assert_eq!(decimal_string(0), "0");
}

#[test]
fn decimal_of_port_numbers() {
    assert_eq!(decimal_string(22), "22");
    assert_eq!(decimal_string(6443), "6443");
    assert_eq!(decimal_string(65535), "65535");
}

#[test]
fn decimal_of_largest_u64() {
    assert_eq!(decimal_string(u64::MAX), "18446744073709551615");
}

#[test]
fn decimal_of_round_numbers_keeps_zeros() {
    assert_eq!(decimal_string(10), "10");
    assert_eq!(decimal_string(1000), "1000");
}

#[test]
fn push_decimal_appends() {
    let mut s = String::from("port ");
    push_decimal(&mut s, 80);
    assert_eq!(s, "port 80");
}

#[test]
fn signed_decimal_of_negative_and_positive() {
    let mut s = String::new();
    push_signed_decimal(&mut s, -42);
    assert_eq!(s, "-42");
    let mut t = String::new();
    push_signed_decimal(&mut t, 7);
    assert_eq!(t, "7");
    let mut u = String::new();
    push_signed_decimal(&mut u, i32::MIN);
    assert_eq!(u, "-2147483648");
}

#[test]
fn join_of_nothing_is_empty() {
    assert_eq!(join_strings(&[], ", "), "");
}

#[test]
fn join_of_one_has_no_separator() {
    assert_eq!(join_strings(&["a".to_string()], ", "), "a");
}

#[test]
fn join_of_three() {
    let labels = vec!["a".to_string(), "b".to_string(), "c".to_string()];
    assert_eq!(join_strings(&labels, ", "), "a, b, c");
}
