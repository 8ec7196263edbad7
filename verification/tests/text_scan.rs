use isf::text::scan_number;
use isf::text::skip_ws;
use isf::text::str_eq;
use isf::text::u64_to_dec;

#[test]
fn decimal_formatting() {
    assert_eq!(u64_to_dec(0), "0");
    assert_eq!(u64_to_dec(7), "7");
    assert_eq!(u64_to_dec(10), "10");
    assert_eq!(u64_to_dec(12345), "12345");
    assert_eq!(u64_to_dec(u64::MAX), "18446744073709551615");
}

#[test]
fn number_scanning() {
    assert_eq!(scan_number("42", 0), Some((42, 2)));
    assert_eq!(scan_number("  42;", 0), Some((42, 4)));
    assert_eq!(scan_number("0x1f", 0), Some((31, 4)));
    assert_eq!(scan_number("0xFF", 0), Some((255, 4)));
    assert_eq!(scan_number("x", 0), None);
    assert_eq!(scan_number("", 0), None);
    // The numeral after the prefix is required.
    assert_eq!(scan_number("0x", 0), None);
    // A value beyond the 64-bit range is rejected, not wrapped.
    assert_eq!(scan_number("18446744073709551615", 0), Some((u64::MAX, 20)));
    assert_eq!(scan_number("18446744073709551616", 0), None);
}

#[test]
fn whitespace_and_equality() {
    assert_eq!(skip_ws("  \t\nx", 0), 4);
    assert_eq!(skip_ws("x", 0), 0);
    assert!(str_eq("abc", "abc"));
    assert!(!str_eq("abc", "abd"));
    assert!(!str_eq("abc", "ab"));
}
