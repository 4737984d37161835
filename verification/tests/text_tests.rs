use secure_crypt::text::{decimal_string, join_strings, push_decimal, push_signed_decimal};
use secure_crypt::text_order::text_less;

#[test]
fn decimals_are_written_without_leading_zeros() {
    assert_eq!(decimal_string(0), "0");
    assert_eq!(decimal_string(9091), "9091");
    assert_eq!(decimal_string(u64::MAX), "18446744073709551615");
}

#[test]
fn decimals_are_appended() {
    let mut s = String::from("port ");
    push_decimal(&mut s, 8443);
    assert_eq!(s, "port 8443");
    let mut t = String::new();
    push_signed_decimal(&mut t, i64::MIN);
    assert_eq!(t, "-9223372036854775808");
    let mut u = String::new();
    push_signed_decimal(&mut u, 42);
    assert_eq!(u, "42");
}

#[test]
fn join_puts_separator_between_parts() {
    assert_eq!(join_strings(&vec![], ","), "");
    assert_eq!(join_strings(&vec!["a".to_string()], ","), "a");
    assert_eq!(join_strings(&vec!["a".to_string(), "".to_string(), "c".to_string()], "; "), "a; ; c");
}

#[test]
fn text_order_is_lexicographic() {
    assert!(text_less("classical", "post_quantum"));
    assert!(text_less("X25519", "X25519MLKEM768"));
    assert!(!text_less("b", "a"));
    assert!(!text_less("same", "same"));
}
