use tcp_hub::codec::{decode_next, encode, find_delimiter, frame_outcome, is_valid_message, Decoded};

#[test]
fn find_delimiter_empty_and_short() {
    assert_eq!(find_delimiter(b""), None);
    assert_eq!(find_delimiter(b"\r"), None);
}

#[test]
fn find_delimiter_first_occurrence() {
    assert_eq!(find_delimiter(b"\r\n"), Some(0));
    assert_eq!(find_delimiter(b"ab\r\ncd\r\n"), Some(2));
    assert_eq!(find_delimiter(b"a\r\r\n"), Some(2));
    assert_eq!(find_delimiter(b"a\n\rb"), None);
}

#[test]
fn encode_appends_delimiter() {
    assert_eq!(encode("{\"x\":1}"), b"{\"x\":1}\r\n".to_vec());
    assert_eq!(encode(""), b"\r\n".to_vec());
}

#[test]
fn decode_next_without_delimiter() {
    assert!(decode_next(b"{\"x\":1}").is_none());
    assert!(decode_next(b"").is_none());
}

#[test]
fn decode_next_message_and_consumed() {
    let (d, n) = decode_next(b"{\"x\":1}\r\n{\"y\"").unwrap();
    assert_eq!(n, 9);
    match d {
        Decoded::Message(b) => assert_eq!(b, b"{\"x\":1}".to_vec()),
        Decoded::Malformed(_) => panic!("expected a message"),
    }
}

#[test]
fn decode_next_malformed_is_consumed() {
    let (d, n) = decode_next(b"not json\r\n{}\r\n").unwrap();
    assert_eq!(n, 10);
    match d {
        Decoded::Malformed(b) => assert_eq!(b, b"not json".to_vec()),
        Decoded::Message(_) => panic!("expected a malformed frame"),
    }
}

#[test]
fn round_trip_of_encoded_message() {
    let text = "{\"system\":\"x\",\"n\":[1,2,3]}";
    let bytes = encode(text);
    let (d, n) = decode_next(&bytes).unwrap();
    assert_eq!(n, bytes.len());
    assert!(matches!(d, Decoded::Message(ref b) if b.as_slice() == text.as_bytes()));
}

#[test]
fn frame_outcome_follows_flag() {
    assert!(matches!(frame_outcome(vec![1, 2], true), Decoded::Message(_)));
    assert!(matches!(frame_outcome(vec![1, 2], false), Decoded::Malformed(_)));
    assert_eq!(frame_outcome(vec![7], false).bytes(), &vec![7u8]);
}

#[test]
fn valid_message_rule() {
    assert!(is_valid_message("{\"x\":1}"));
    assert!(is_valid_message("[1,\n2]"));
    assert!(!is_valid_message("[1,\r\n2]"));
    assert!(!is_valid_message("{"));
    assert!(!is_valid_message(""));
}
