use mini_pascal::text::{push_decimal, push_digits, str_equals};

fn digits(n: u128) -> String {
    let mut out = String::new();
    push_digits(&mut out, n);
    out
}

fn decimal(n: i32) -> String {
    let mut out = String::new();
    push_decimal(&mut out, n);
    out
}

#[test]
fn digits_of_small_and_large_numbers() {
    assert_eq!(digits(0), "0");
    assert_eq!(digits(9), "9");
    assert_eq!(digits(10), "10");
    assert_eq!(digits(1234567890), "1234567890");
    assert_eq!(digits(u64::MAX as u128 + 1), "18446744073709551616");
    assert_eq!(digits(u128::MAX), "340282366920938463463374607431768211455");
}

#[test]
fn digits_are_appended_to_what_is_there() {
    let mut out = "n = ".to_string();
    push_digits(&mut out, 42);
    assert_eq!(out, "n = 42");
    push_decimal(&mut out, -7);
    assert_eq!(out, "n = 42-7");
}

#[test]
fn decimal_of_both_signs() {
    assert_eq!(decimal(0), "0");
    assert_eq!(decimal(5), "5");
    assert_eq!(decimal(-5), "-5");
    assert_eq!(decimal(100), "100");
    assert_eq!(decimal(-100), "-100");
    assert_eq!(decimal(i32::MAX), "2147483647");
    assert_eq!(decimal(i32::MIN), "-2147483648");
}

#[test]
fn decimal_agrees_with_the_standard_notation() {
    for n in [-99999, -1024, -11, -10, -9, -1, 0, 1, 9, 10, 11, 99, 100, 101, 65535, 1000000] {
        assert_eq!(decimal(n), n.to_string());
    }
}

#[test]
fn what_is_written_reads_back() {
    for n in [0u32, 1, 9, 10, 19, 100, 4096, 2147483647] {
        assert_eq!(digits(n as u128).parse::<u32>(), Ok(n));
    }
}

#[test]
fn equal_texts() {
    assert!(str_equals("", ""));
    assert!(str_equals("var", "var"));
    assert!(str_equals("caf\u{e9}", "caf\u{e9}"));
}

#[test]
fn unequal_texts() {
    assert!(!str_equals("var", "val"));
    assert!(!str_equals("var", "vars"));
    assert!(!str_equals("vars", "var"));
    assert!(!str_equals("", "a"));
    assert!(!str_equals("a", ""));
    assert!(!str_equals("Var", "var"));
    assert!(!str_equals("cafe", "caf\u{e9}"));
}
