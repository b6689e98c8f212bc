use redis_starter_rust::encode::{
    encode_bulk_string, encode_rdb_file, encode_resp_arr, encode_resp_str, encode_simple_str,
};

#[test]
fn simple_string_frames_text() {
    assert_eq!(encode_simple_str("OK").unwrap(), "+OK\r\n");
    assert_eq!(encode_simple_str("").unwrap(), "+\r\n");
    assert_eq!(encode_simple_str("héllo").unwrap(), "+héllo\r\n");
}

#[test]
fn bulk_string_counts_bytes() {
    assert_eq!(encode_resp_str("hello").unwrap(), "$5\r\nhello\r\n");
    assert_eq!(encode_resp_str("").unwrap(), "$0\r\n\r\n");
    assert_eq!(encode_resp_str("héllo").unwrap(), "$6\r\nhéllo\r\n");
    assert_eq!(encode_resp_str("abcdefghijkl").unwrap(), "$12\r\nabcdefghijkl\r\n");
}

#[test]
fn bulk_string_joins_with_commas() {
    let parts = vec!["a".to_string(), "bc".to_string()];
    assert_eq!(encode_bulk_string(parts).unwrap(), "$4\r\na,bc\r\n");
    assert_eq!(encode_bulk_string(vec![]).unwrap(), "$0\r\n\r\n");
    assert_eq!(encode_bulk_string(vec!["x".to_string()]).unwrap(), "$1\r\nx\r\n");
}

#[test]
fn single_part_bulk_string_matches_resp_str() {
    let text = "replication";
    assert_eq!(
        encode_bulk_string(vec![text.to_string()]).unwrap(),
        encode_resp_str(text).unwrap()
    );
}

#[test]
fn rdb_file_has_no_terminator() {
    let data = vec![1u8, 2, 3];
    assert_eq!(encode_rdb_file(&data).unwrap(), b"$3\r\n\x01\x02\x03".to_vec());
    assert_eq!(encode_rdb_file(&vec![]).unwrap(), b"$0\r\n".to_vec());
}

#[test]
fn array_of_bulk_strings() {
    assert_eq!(encode_resp_arr(vec!["PING".to_string()]).unwrap(), "*1\r\n$4\r\nPING\r\n");
    assert_eq!(
        encode_resp_arr(vec!["ECHO".to_string(), "hey".to_string()]).unwrap(),
        "*2\r\n$4\r\nECHO\r\n$3\r\nhey\r\n"
    );
    assert_eq!(encode_resp_arr(vec![]).unwrap(), "*0\r\n");
    let many: Vec<String> = (0..12).map(|i| i.to_string()).collect();
    let encoded = encode_resp_arr(many).unwrap();
    assert!(encoded.starts_with("*12\r\n$1\r\n0\r\n"));
    assert!(encoded.ends_with("$2\r\n11\r\n"));
}
