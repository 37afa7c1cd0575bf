use cogru::codec::{encode_frame, get_content_len, Packet};

fn frame(payload: &str) -> Vec<u8> {
    encode_frame(payload)
}

#[test]
fn encode_frame_shape() {
    let bytes = frame("{\"method\":\"ping\"}");
    let expect = b"Content-Length: 17\r\n\r\n{\"method\":\"ping\"}".to_vec();
    assert_eq!(bytes, expect);
}

#[test]
fn one_shot_decode() {
    let mut p = Packet::new();
    p.feed(frame("hello"));
    let frames = p.extract();
    assert_eq!(frames.len(), 1);
    assert_eq!(frames[0], b"hello".to_vec());
    assert!(p.buffered().is_empty());
}

#[test]
fn split_delivery_reassembles_identically() {
    let whole = frame("{\"method\":\"init\",\"path\":\"/home/a\"}");
    // Feed the same frame split at every possible byte boundary.
    for cut in 0..=whole.len() {
        let mut p = Packet::new();
        p.feed(whole[..cut].to_vec());
        let mut frames = p.extract();
        p.feed(whole[cut..].to_vec());
        frames.extend(p.extract());
        assert_eq!(frames.len(), 1, "cut at {}", cut);
        assert_eq!(frames[0], b"{\"method\":\"init\",\"path\":\"/home/a\"}".to_vec());
        assert!(p.buffered().is_empty());
    }
}

#[test]
fn two_frames_in_one_feed() {
    let mut bytes = frame("first");
    bytes.extend(frame("second"));
    let mut p = Packet::new();
    p.feed(bytes);
    let frames = p.extract();
    assert_eq!(frames.len(), 2);
    assert_eq!(frames[0], b"first".to_vec());
    assert_eq!(frames[1], b"second".to_vec());
}

#[test]
fn payload_containing_crlf_is_not_split() {
    // The decoder advances by the header byte length, so a payload that
    // itself contains \r\n comes back whole.
    let mut p = Packet::new();
    p.feed(frame("line one\r\n\r\nline two"));
    let frames = p.extract();
    assert_eq!(frames.len(), 1);
    assert_eq!(frames[0], b"line one\r\n\r\nline two".to_vec());
}

#[test]
fn short_read_keeps_partial_data() {
    let whole = frame("abcdef");
    let mut p = Packet::new();
    p.feed(whole[..whole.len() - 3].to_vec());
    assert!(p.extract().is_empty());
    p.feed(whole[whole.len() - 3..].to_vec());
    let frames = p.extract();
    assert_eq!(frames.len(), 1);
    assert_eq!(frames[0], b"abcdef".to_vec());
}

#[test]
fn malformed_header_is_dropped() {
    let mut bytes = b"Content-Size: 3\r\n\r\n".to_vec();
    bytes.extend(frame("ok"));
    let mut p = Packet::new();
    p.feed(bytes);
    let frames = p.extract();
    assert_eq!(frames.len(), 1);
    assert_eq!(frames[0], b"ok".to_vec());
}

#[test]
fn content_len_parses_exactly() {
    assert_eq!(get_content_len(&b"Content-Length: 42".to_vec()), Some(42));
    assert_eq!(get_content_len(&b"Content-Length: 0".to_vec()), Some(0));
    assert_eq!(get_content_len(&b"Content-Length: ".to_vec()), None);
    assert_eq!(get_content_len(&b"Content-Length:42".to_vec()), None);
    assert_eq!(get_content_len(&b"content-length: 42".to_vec()), None);
    assert_eq!(get_content_len(&b"Content-Length: 4x2".to_vec()), None);
}

#[test]
fn fresh_packet_is_not_done() {
    let p = Packet::new();
    assert!(!p.is_done());
}
