use cryptomeria_historic::forward::{FRAME_SEPARATOR, frame_message, split_frame};

#[test]
fn forward_splits_frame_back_into_topic_and_payload() {
    let bytes = frame_message("trade__btcusdt", b"{\"price\":1.0}");
    let (topic, payload) = split_frame(&bytes).unwrap();
    assert_eq!(topic, "trade__btcusdt");
    assert_eq!(payload, b"{\"price\":1.0}");
}

#[test]
fn forward_split_frame_returns_none_without_separator() {
    assert!(split_frame(b"no separator here").is_none());
}

#[test]
fn forward_splits_frame_with_empty_payload() {
    let bytes = frame_message("lob__btcusdt", b"");
    let (topic, payload) = split_frame(&bytes).unwrap();
    assert_eq!(topic, "lob__btcusdt");
    assert!(payload.is_empty());
}

#[test]
fn frame_message_lays_out_topic_separator_payload() {
    let bytes = frame_message("lob__x", b"ab");
    assert_eq!(bytes, vec![b'l', b'o', b'b', b'_', b'_', b'x', FRAME_SEPARATOR, b'a', b'b']);
}

#[test]
fn split_frame_uses_first_separator() {
    let (topic, payload) = split_frame(b"t\0a\0b").unwrap();
    assert_eq!(topic, "t");
    assert_eq!(payload, b"a\0b");
}

#[test]
fn split_frame_of_separator_only() {
    let (topic, payload) = split_frame(b"\0").unwrap();
    assert_eq!(topic, "");
    assert!(payload.is_empty());
}

#[test]
fn split_frame_of_empty_input_is_none() {
    assert!(split_frame(b"").is_none());
}

#[test]
fn split_frame_replaces_invalid_utf8_in_topic() {
    let (topic, payload) = split_frame(&[0x66, 0xff, 0x00, 0x01]).unwrap();
    assert_eq!(topic, "f\u{fffd}");
    assert_eq!(payload, &[0x01]);
}

#[test]
fn split_inverts_frame_for_unicode_topic() {
    let bytes = frame_message("trade__ßtc€", b"\x00payload\x00");
    let (topic, payload) = split_frame(&bytes).unwrap();
    assert_eq!(topic, "trade__ßtc€");
    assert_eq!(payload, b"\x00payload\x00");
}

#[test]
fn split_does_not_invert_frame_when_topic_holds_nul() {
    let bytes = frame_message("a\0b", b"p");
    let (topic, payload) = split_frame(&bytes).unwrap();
    assert_eq!(topic, "a");
    assert_eq!(payload, b"b\0p");
}
