//! Tests for frame assembly and the inbound message parser.

use picolink::frame::{FrameAccumulator, FrameError};
use picolink::messages::{Pi2PicoMessage, Pi2PicoMessageError, Pi2PicoTest};

/// Feed a byte text through the accumulator, returning every completed
/// frame.
fn feed(acc: &mut FrameAccumulator, bytes: &[u8]) -> Vec<Vec<u8>> {
    let mut frames = Vec::new();
    for &b in bytes {
        if let Some(frame) = acc.push_byte(b).unwrap() {
            frames.push(frame);
        }
    }
    frames
}

#[test]
fn frame_assembly_strips_the_terminator() {
    let mut acc = FrameAccumulator::new();
    let frames = feed(&mut acc, b"cursor_index=3\r\n");
    assert_eq!(frames, vec![b"cursor_index=3".to_vec()]);
}

#[test]
fn frame_assembly_splits_consecutive_frames() {
    let mut acc = FrameAccumulator::new();
    let frames = feed(&mut acc, b"a=1\r\nb=2\r\n");
    assert_eq!(frames, vec![b"a=1".to_vec(), b"b=2".to_vec()]);
}

#[test]
fn frame_assembly_overflow_is_fatal() {
    let mut acc = FrameAccumulator::new();
    for _ in 0..2048 {
        assert_eq!(acc.push_byte(b'a'), Ok(None));
    }
    assert_eq!(acc.push_byte(b'a'), Err(FrameError::CapacityExceeded));
}

#[test]
fn inbound_frame_parses_to_typed_fields() {
    let mut acc = FrameAccumulator::new();
    let frames = feed(
        &mut acc,
        b"cursor_index=3&ip_and_battery=10.0.0.1/87&data_lines=foo,bar\r\n",
    );
    assert_eq!(frames.len(), 1);
    let msg = Pi2PicoMessage::try_from(&frames[0]).unwrap();
    assert_eq!(msg.cursor_index, Some(3));
    assert_eq!(
        msg.ip_and_battery,
        Some((b"10.0.0.1".to_vec(), b"87".to_vec()))
    );
    assert_eq!(msg.title_and_paginator, None);
    assert_eq!(
        msg.data_lines,
        Some(vec![Some(b"foo".to_vec()), Some(b"bar".to_vec())])
    );
}

#[test]
fn inbound_title_and_paginator_split_on_slash() {
    let msg = Pi2PicoMessage::try_from(&b"title_and_paginator=files/2-9".to_vec()).unwrap();
    assert_eq!(
        msg.title_and_paginator,
        Some((b"files".to_vec(), b"2-9".to_vec()))
    );
    assert_eq!(msg.cursor_index, None);
}

#[test]
fn inbound_unrecognized_keys_are_ignored() {
    let msg = Pi2PicoMessage::try_from(&b"other=1&cursor_index=7".to_vec()).unwrap();
    assert_eq!(msg.cursor_index, Some(7));
    assert_eq!(msg.ip_and_battery, None);
    assert_eq!(msg.data_lines, None);
}

#[test]
fn inbound_repeated_key_last_occurrence_wins() {
    let msg = Pi2PicoMessage::try_from(&b"cursor_index=1&cursor_index=5".to_vec()).unwrap();
    assert_eq!(msg.cursor_index, Some(5));
}

#[test]
fn inbound_non_kv_frame_is_a_parse_error() {
    assert!(matches!(
        Pi2PicoMessage::try_from(&b"hello".to_vec()),
        Err(Pi2PicoMessageError::ParseError)
    ));
    assert!(matches!(
        Pi2PicoMessage::try_from(&b"a=1&bc".to_vec()),
        Err(Pi2PicoMessageError::ParseError)
    ));
}

#[test]
fn inbound_bad_cursor_index_is_a_mismatch() {
    assert!(matches!(
        Pi2PicoMessage::try_from(&b"cursor_index=abc".to_vec()),
        Err(Pi2PicoMessageError::StringMismatch)
    ));
}

#[test]
fn inbound_ip_without_slash_is_a_mismatch() {
    assert!(matches!(
        Pi2PicoMessage::try_from(&b"ip_and_battery=10.0.0.1".to_vec()),
        Err(Pi2PicoMessageError::StringMismatch)
    ));
}

#[test]
fn inbound_overlong_ip_is_a_mismatch() {
    assert!(matches!(
        Pi2PicoMessage::try_from(&b"ip_and_battery=1234.5678.9012.3456/87".to_vec()),
        Err(Pi2PicoMessageError::StringMismatch)
    ));
}

#[test]
fn inbound_too_many_data_lines_is_a_mismatch() {
    assert!(matches!(
        Pi2PicoMessage::try_from(&b"data_lines=1,2,3,4,5,6,7,8,9".to_vec()),
        Err(Pi2PicoMessageError::StringMismatch)
    ));
    let msg = Pi2PicoMessage::try_from(&b"data_lines=1,2,3,4,5,6,7,8".to_vec()).unwrap();
    assert_eq!(msg.data_lines.unwrap().len(), 8);
}

#[test]
fn inbound_overlong_data_line_is_a_mismatch() {
    assert!(matches!(
        Pi2PicoMessage::try_from(&b"data_lines=aaaaaaaaaaaaaaaaaaaaa".to_vec()),
        Err(Pi2PicoMessageError::StringMismatch)
    ));
}

#[test]
fn test_message_takes_first_kc_value() {
    let tst = Pi2PicoTest::try_from(&b"a=1&kc=d&kc=u".to_vec()).unwrap();
    assert_eq!(tst.kc, b"d".to_vec());
}

#[test]
fn test_message_defaults_to_empty() {
    let tst = Pi2PicoTest::try_from(&b"nonsense".to_vec()).unwrap();
    assert_eq!(tst.kc, Vec::<u8>::new());
    let tst = Pi2PicoTest::try_from(&b"a=1&b=2".to_vec()).unwrap();
    assert_eq!(tst.kc, Vec::<u8>::new());
    let tst = Pi2PicoTest::try_from(&b"kc=toolong".to_vec()).unwrap();
    assert_eq!(tst.kc, Vec::<u8>::new());
}
