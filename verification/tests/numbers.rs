use azurejay::numbers::{parse_i32, parse_u16, parse_u64, parse_usize, IntError};

#[test]
fn parses_like_std() {
    let cases = [
        "", "+", "-", "0", "42", "+7", "-7", "007", "12a", "a12", " 1", "1 ", "65535", "65536",
        "2147483647", "2147483648", "-2147483648", "-2147483649", "99999999999999999999x",
        "18446744073709551615", "18446744073709551616", "١",
    ];
    for s in cases {
        assert_eq!(parse_i32(s).ok(), s.parse::<i32>().ok(), "i32 {s:?}");
        assert_eq!(parse_u16(s).ok(), s.parse::<u16>().ok(), "u16 {s:?}");
        assert_eq!(parse_u64(s).ok(), s.parse::<u64>().ok(), "u64 {s:?}");
        assert_eq!(parse_usize(s).ok(), s.parse::<usize>().ok(), "usize {s:?}");
        if let Err(e) = parse_i32(s) {
            assert_eq!(e.message(), s.parse::<i32>().unwrap_err().to_string(), "i32 err {s:?}");
        }
        if let Err(e) = parse_u16(s) {
            assert_eq!(e.message(), s.parse::<u16>().unwrap_err().to_string(), "u16 err {s:?}");
        }
    }
}

#[test]
fn error_kinds() {
    assert_eq!(parse_i32(""), Err(IntError::Empty));
    assert_eq!(parse_i32("x"), Err(IntError::InvalidDigit));
    assert_eq!(parse_i32("3000000000"), Err(IntError::PosOverflow));
    assert_eq!(parse_i32("-3000000000"), Err(IntError::NegOverflow));
    assert_eq!(parse_u16("-0"), Err(IntError::InvalidDigit));
}
