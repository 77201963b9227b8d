use head::size::{parse_size, size_error_message, SizeError};

#[test]
fn test_plain_numbers() {
    assert_eq!(parse_size("0"), Ok(0));
    assert_eq!(parse_size("1"), Ok(1));
    assert_eq!(parse_size("42"), Ok(42));
    assert_eq!(parse_size("1000"), Ok(1000));
}

#[test]
fn test_block_suffix() {
    assert_eq!(parse_size("2b"), Ok(1024));
    assert_eq!(parse_size("1b"), Ok(512));
}

#[test]
fn test_si_suffixes() {
    assert_eq!(parse_size("1kB"), Ok(1_000));
    assert_eq!(parse_size("1MB"), Ok(1_000_000));
    assert_eq!(parse_size("1GB"), Ok(1_000_000_000));
    assert_eq!(parse_size("1TB"), Ok(1_000_000_000_000));
    assert_eq!(parse_size("1PB"), Ok(1_000_000_000_000_000));
    assert_eq!(parse_size("1EB"), Ok(1_000_000_000_000_000_000));
}

#[test]
fn test_binary_suffixes() {
    assert_eq!(parse_size("1K"), Ok(1_024));
    assert_eq!(parse_size("1KiB"), Ok(1_024));
    assert_eq!(parse_size("1k"), Ok(1_024));
    assert_eq!(parse_size("1M"), Ok(1_048_576));
    assert_eq!(parse_size("1MiB"), Ok(1_048_576));
    assert_eq!(parse_size("1G"), Ok(1_073_741_824));
    assert_eq!(parse_size("1GiB"), Ok(1_073_741_824));
    assert_eq!(parse_size("2K"), Ok(2_048));
}

#[test]
fn test_invalid_suffix() {
    assert!(parse_size("1X").is_err());
    assert!(parse_size("1xyz").is_err());
}

#[test]
fn test_invalid_number() {
    assert!(parse_size("").is_err());
    assert!(parse_size("abc").is_err());
    assert!(parse_size("K").is_err());
}

#[test]
fn test_overflow() {
    // 2 * 10^30 overflows u64
    assert!(parse_size("2QB").is_err());
}

#[test]
fn larger_units() {
    assert_eq!(parse_size("1TiB"), Ok(1_099_511_627_776));
    assert_eq!(parse_size("3T"), Ok(3 * 1_099_511_627_776));
    assert_eq!(parse_size("1P"), Ok(1 << 50));
    assert_eq!(parse_size("1PiB"), Ok(1 << 50));
    assert_eq!(parse_size("1E"), Ok(1 << 60));
    assert_eq!(parse_size("15EiB"), Ok(15 << 60));
    assert_eq!(parse_size("0Q"), Ok(0));
    assert_eq!(parse_size("0YB"), Ok(0));
    assert_eq!(parse_size("0ZiB"), Ok(0));
    assert_eq!(parse_size("0R"), Ok(0));
    assert_eq!(parse_size("007"), Ok(7));
}

#[test]
fn u64_limits() {
    assert_eq!(parse_size("18446744073709551615"), Ok(u64::MAX));
    assert_eq!(
        parse_size("18446744073709551616"),
        Err("count is too large: \"18446744073709551616\"".to_string())
    );
    assert_eq!(
        parse_size("16E"),
        Err("count is too large: \"16E\"".to_string())
    );
    assert_eq!(parse_size("18EB"), Ok(18_000_000_000_000_000_000));
    assert!(parse_size("19EB").is_err());
}

#[test]
fn error_messages() {
    assert_eq!(parse_size(""), Err("invalid count: \"\"".to_string()));
    assert_eq!(parse_size("abc"), Err("invalid count: \"abc\"".to_string()));
    assert_eq!(
        parse_size("1X"),
        Err("invalid suffix in count: \"X\"".to_string())
    );
    assert_eq!(
        parse_size("12kb"),
        Err("invalid suffix in count: \"kb\"".to_string())
    );
    assert_eq!(parse_size("2QB"), Err("count is too large: \"2QB\"".to_string()));
    // The quoting escapes what Debug escapes.
    assert_eq!(
        parse_size("5\"q"),
        Err("invalid suffix in count: \"\\\"q\"".to_string())
    );
}

#[test]
fn more_digits_than_u128_is_an_invalid_count() {
    let s = "1".repeat(40);
    assert_eq!(parse_size(&s), Err(format!("invalid count: {s:?}")));
    // An overflowing number is reported before an unknown suffix.
    let t = format!("{}X", "9".repeat(45));
    assert_eq!(parse_size(&t), Err(format!("invalid count: {t:?}")));
    // 39 digits still fit in u128 and only overflow u64.
    let u = "1".repeat(39);
    assert_eq!(parse_size(&u), Err(format!("count is too large: {u:?}")));
}

#[test]
fn sign_and_space_are_not_digits() {
    assert!(parse_size("+5").is_err());
    assert!(parse_size("-5").is_err());
    assert_eq!(parse_size("5 "), Err("invalid suffix in count: \" \"".to_string()));
}

#[test]
fn messages_from_quoted_text() {
    assert_eq!(size_error_message(SizeError::InvalidCount, "\"x\""), "invalid count: \"x\"");
    assert_eq!(
        size_error_message(SizeError::InvalidSuffix, "q"),
        "invalid suffix in count: q"
    );
    assert_eq!(size_error_message(SizeError::TooLarge, ""), "count is too large: ");
}
