use redis_starter_rust::connection::serialize_resp_str;
use redis_starter_rust::encode::encode_resp_arr;
use redis_starter_rust::framing::{parse_args, parse_args_truncated, ParseArgsError};

fn read(bytes: &[u8]) -> Result<Vec<String>, ParseArgsError> {
    let mut buffer = [0u8; 1024];
    buffer[..bytes.len()].copy_from_slice(bytes);
    assert!(!parse_args_truncated(&buffer, bytes.len()));
    parse_args(&mut buffer, bytes.len())
}

#[test]
fn reads_request_arguments() {
    assert_eq!(
        read(b"*2\r\n$4\r\nECHO\r\n$3\r\nhey\r\n").unwrap(),
        vec!["ECHO".to_string(), "hey".to_string()]
    );
    assert_eq!(read(b"*1\r\n$4\r\nPING\r\n").unwrap(), vec!["PING".to_string()]);
    assert_eq!(read(b"").unwrap(), Vec::<String>::new());
    assert_eq!(read(b"+OK\r\n").unwrap(), Vec::<String>::new());
}

#[test]
fn reads_two_digit_lengths() {
    let text = "abcdefghijklmnop";
    let frame = format!("*1\r\n${}\r\n{}\r\n", text.len(), text);
    assert_eq!(read(frame.as_bytes()).unwrap(), vec![text.to_string()]);
}

#[test]
fn refuses_bad_lengths_and_text() {
    assert_eq!(read(b"$x\r\nab\r\n"), Err(ParseArgsError::InvalidLength));
    assert_eq!(read(b"$\r\nab\r\n"), Err(ParseArgsError::InvalidLength));
    assert_eq!(read(b"$\xff\r\nab\r\n"), Err(ParseArgsError::InvalidUtf8));
    assert_eq!(read(b"$1\r\n\xff\r\n"), Err(ParseArgsError::InvalidUtf8));
    // a `$` inside a payload starts another bulk string
    assert_eq!(read(b"$3\r\na$b\r\n"), Err(ParseArgsError::InvalidLength));
}

#[test]
fn offset_follows_the_digit_count() {
    // a `+` before the length is read as part of the number, and the payload
    // is taken four bytes after the `$`
    assert_eq!(read(b"$+3\r\nabc\r\n").unwrap(), vec!["\nab".to_string()]);
}

#[test]
fn detects_truncated_frames() {
    let short = *b"$5\r\nab";
    assert!(parse_args_truncated(&short, 6));
    // the length is read from the whole buffer, even past the bytes read
    assert!(parse_args_truncated(&short, 1));
    assert!(parse_args_truncated(b"$3", 2));
    assert!(parse_args_truncated(b"abc", 4));
    assert!(!parse_args_truncated(b"abc", 3));
    assert!(!parse_args_truncated(b"ab$", 2));
}

#[test]
fn reads_back_encoded_arrays() {
    let parts = vec!["SET".to_string(), "clé".to_string(), "value".to_string()];
    let encoded = encode_resp_arr(parts.clone()).unwrap();
    assert_eq!(read(encoded.as_bytes()).unwrap(), parts);
}

#[test]
fn short_bulk_string() {
    assert_eq!(serialize_resp_str("hey").unwrap(), "$3\r\nhey\r\n");
    assert_eq!(serialize_resp_str("").unwrap(), "$0\r\n\r\n");
    assert_eq!(serialize_resp_str("123456789").unwrap(), "$9\r\n123456789\r\n");
}
