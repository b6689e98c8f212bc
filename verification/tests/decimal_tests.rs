use redis_starter_rust::decimal::{format_i32, format_u64, format_usize, parse_i32, parse_usize};

#[test]
fn formats_decimal_text() {
    assert_eq!(format_u64(0), b"0".to_vec());
    assert_eq!(format_u64(1234567890), b"1234567890".to_vec());
    assert_eq!(format_usize(42), b"42".to_vec());
    assert_eq!(format_i32(-2147483648), b"-2147483648".to_vec());
    assert_eq!(format_i32(6380), b"6380".to_vec());
}

#[test]
fn parses_usize_like_from_str_radix() {
    assert_eq!(parse_usize(b"12"), Some(12));
    assert_eq!(parse_usize(b"+12"), Some(12));
    assert_eq!(parse_usize(b"007"), Some(7));
    assert_eq!(parse_usize(b""), None);
    assert_eq!(parse_usize(b"+"), None);
    assert_eq!(parse_usize(b"-1"), None);
    assert_eq!(parse_usize(b"1a"), None);
    assert_eq!(parse_usize(usize::MAX.to_string().as_bytes()), Some(usize::MAX));
    let too_big = format!("{}0", usize::MAX);
    assert_eq!(parse_usize(too_big.as_bytes()), None);
}

#[test]
fn parses_i32_like_from_str_radix() {
    assert_eq!(parse_i32(b"-2147483648"), Some(i32::MIN));
    assert_eq!(parse_i32(b"2147483647"), Some(i32::MAX));
    assert_eq!(parse_i32(b"2147483648"), None);
    assert_eq!(parse_i32(b"+5"), Some(5));
    assert_eq!(parse_i32(b"-"), None);
    assert_eq!(parse_i32(b"+"), None);
    assert_eq!(parse_i32(b"--5"), None);
    assert_eq!(parse_i32(b" 5"), None);
}

#[test]
fn decimal_round_trip() {
    for x in [0i32, 7, -7, 6379, i32::MAX, i32::MIN] {
        assert_eq!(parse_i32(&format_i32(x)), Some(x));
    }
    for n in [0usize, 9, 10, 99, 100, 65536] {
        assert_eq!(parse_usize(&format_usize(n)), Some(n));
    }
}
