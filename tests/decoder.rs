use tcp_hub::codec::Decoded;
use tcp_hub::decoder::{DecodeError, FrameDecoder};

fn payloads(v: &[Decoded]) -> Vec<(Vec<u8>, bool)> {
    v.iter()
        .map(|d| match d {
            Decoded::Message(b) => (b.clone(), true),
            Decoded::Malformed(b) => (b.clone(), false),
        })
        .collect()
}

const STREAM: &[u8] = b"{\"a\":1}\r\n[2,3]\r\nbad\r\n\"s\"\r\n{\"tail\"";

#[test]
fn feed_whole_stream() {
    let mut d = FrameDecoder::new(1024);
    let out = d.feed(STREAM).unwrap();
    assert_eq!(
        payloads(&out),
        vec![
            (b"{\"a\":1}".to_vec(), true),
            (b"[2,3]".to_vec(), true),
            (b"bad".to_vec(), false),
            (b"\"s\"".to_vec(), true),
        ]
    );
    assert_eq!(d.pending_len(), 7);
}

#[test]
fn feed_byte_by_byte_matches_whole() {
    let mut whole = FrameDecoder::new(1024);
    let expected = payloads(&whole.feed(STREAM).unwrap());
    let mut single = FrameDecoder::new(1024);
    let mut got = Vec::new();
    for b in STREAM {
        got.extend(payloads(&single.feed(&[*b]).unwrap()));
    }
    assert_eq!(got, expected);
    assert_eq!(single.pending_len(), whole.pending_len());
}

#[test]
fn delimiter_split_across_reads() {
    let mut d = FrameDecoder::new(64);
    assert!(d.feed(b"{}\r").unwrap().is_empty());
    let out = d.feed(b"\n").unwrap();
    assert_eq!(payloads(&out), vec![(b"{}".to_vec(), true)]);
    assert_eq!(d.pending_len(), 0);
}

#[test]
fn empty_frame_is_malformed() {
    let mut d = FrameDecoder::new(64);
    let out = d.feed(b"\r\n").unwrap();
    assert_eq!(payloads(&out), vec![(Vec::new(), false)]);
}

#[test]
fn overflow_without_delimiter() {
    let mut d = FrameDecoder::new(4);
    assert!(d.feed(b"abcd").unwrap().is_empty());
    assert!(matches!(d.feed(b"e"), Err(DecodeError::Overflow)));
    assert_eq!(d.pending_len(), 0);
}

#[test]
fn bound_applies_to_remainder_only() {
    let mut d = FrameDecoder::new(2);
    let out = d.feed(b"{\"long\":true}\r\nab").unwrap();
    assert_eq!(out.len(), 1);
    assert_eq!(d.pending_len(), 2);
}
