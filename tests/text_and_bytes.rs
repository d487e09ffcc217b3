use solana_debugger::text::{parse_usize, starts_with, str_eq, u128_text};
use solana_debugger::wire::{le_u128, u128_le};

#[test]
fn decimal_text() {
    assert_eq!(u128_text(0), "0");
    assert_eq!(u128_text(1234567890), "1234567890");
}

#[test]
fn usize_parsing() {
    assert_eq!(parse_usize("0"), Some(0));
    assert_eq!(parse_usize("+7"), Some(7));
    assert_eq!(parse_usize("18446744073709551615"), Some(usize::MAX));
    assert_eq!(parse_usize("18446744073709551616"), None);
    assert_eq!(parse_usize(""), None);
    assert_eq!(parse_usize("+"), None);
    assert_eq!(parse_usize("-1"), None);
    assert_eq!(parse_usize("1a"), None);
}

#[test]
fn little_endian_bytes() {
    let b = u128_le(0x0102);
    assert_eq!(b.len(), 16);
    assert_eq!(b[0], 2);
    assert_eq!(b[1], 1);
    assert_eq!(le_u128(&b), 0x0102);
    assert_eq!(le_u128(&u128_le(u128::MAX)), u128::MAX);
}

#[test]
fn text_comparison() {
    assert!(str_eq("abc", "abc"));
    assert!(!str_eq("abc", "abd"));
    assert!(starts_with("Program log: x", "Program log:"));
    assert!(!starts_with("Prog", "Program"));
}
