use rusteria::text::{bytes_eq, decimal_string, parse_unsigned, str_eq};

#[test]
fn numbers_are_read_as_std_reads_them() {
    let texts = [
        "", "+", "-", "0", "00", "7", "+7", "++7", "-1", "65535", "65536", "0065535",
        "18446744073709551615", "18446744073709551616", "18446744073709551620",
        "99999999999999999999999", " 1", "1 ", "1_0", "0x10", "1a", "\u{0661}", "+\u{0661}", "é",
    ];
    for text in texts {
        assert_eq!(parse_unsigned(text, u64::MAX), text.parse::<u64>().ok(), "{:?}", text);
        assert_eq!(
            parse_unsigned(text, u16::MAX as u64),
            text.parse::<u16>().ok().map(|n| n as u64),
            "{:?}",
            text
        );
        assert_eq!(
            parse_unsigned(text, u8::MAX as u64),
            text.parse::<u8>().ok().map(|n| n as u64),
            "{:?}",
            text
        );
    }
}

#[test]
fn numbers_below_the_limit_only() {
    assert_eq!(parse_unsigned("42", 42), Some(42));
    assert_eq!(parse_unsigned("43", 42), None);
    assert_eq!(parse_unsigned("0", 0), Some(0));
    assert_eq!(parse_unsigned("1", 0), None);
}

#[test]
fn numbers_are_written_as_std_writes_them() {
    for n in [0, 1, 9, 10, 11, 99, 100, 233, 8888, 65535, 1234567890, u64::MAX] {
        assert_eq!(decimal_string(n), n.to_string());
    }
}

#[test]
fn written_numbers_are_read_back() {
    for n in [0, 5, 10, 909, 65536, u64::MAX] {
        assert_eq!(parse_unsigned(&decimal_string(n), u64::MAX), Some(n));
    }
}

#[test]
fn equality_of_texts_and_bytes() {
    assert!(str_eq("", ""));
    assert!(str_eq("päss", "päss"));
    assert!(!str_eq("password", "Password"));
    assert!(!str_eq("pass", "password"));
    assert!(bytes_eq(&[1, 2], &[1, 2]));
    assert!(!bytes_eq(&[1, 2], &[1, 3]));
    assert!(!bytes_eq(&[1, 2], &[1, 2, 3]));
}
