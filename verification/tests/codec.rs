//! Tests for the decimal codec, the key/value codec and the outbound
//! encoder.

use picolink::decimal::{atoi, dec_bytes_u64, itoa};
use picolink::encoder::encode_key_event;
use picolink::keys::KeyboardCodes;
use picolink::kv::{string_to_kv, StringToKVError};

#[test]
fn itoa_zero_is_zero_text() {
    assert_eq!(itoa(0), b"0".to_vec());
}

#[test]
fn itoa_positive_and_negative() {
    assert_eq!(itoa(1), b"1".to_vec());
    assert_eq!(itoa(42), b"42".to_vec());
    assert_eq!(itoa(-1), b"-1".to_vec());
    assert_eq!(itoa(-100), b"-100".to_vec());
    assert_eq!(itoa(i32::MAX), b"2147483647".to_vec());
    assert_eq!(itoa(i32::MIN), b"-2147483648".to_vec());
}

#[test]
fn decimal_round_trip_over_samples() {
    for n in [
        0,
        1,
        -1,
        9,
        10,
        -10,
        999,
        1000,
        123456789,
        -123456789,
        i32::MAX,
        i32::MIN,
        i32::MAX - 1,
        i32::MIN + 1,
    ] {
        assert_eq!(atoi(&itoa(n)), Some(n));
    }
}

#[test]
fn atoi_rejects_malformed_text() {
    assert_eq!(atoi(&b"".to_vec()), None);
    assert_eq!(atoi(&b"-".to_vec()), None);
    assert_eq!(atoi(&b"12a".to_vec()), None);
    assert_eq!(atoi(&b"a12".to_vec()), None);
    assert_eq!(atoi(&b"1 2".to_vec()), None);
    assert_eq!(atoi(&b"--5".to_vec()), None);
}

#[test]
fn atoi_rejects_out_of_range_values() {
    assert_eq!(atoi(&b"2147483648".to_vec()), None);
    assert_eq!(atoi(&b"-2147483649".to_vec()), None);
    assert_eq!(atoi(&b"99999999999999999999".to_vec()), None);
    assert_eq!(atoi(&b"2147483647".to_vec()), Some(i32::MAX));
    assert_eq!(atoi(&b"-2147483648".to_vec()), Some(i32::MIN));
}

#[test]
fn atoi_accepts_leading_zeros() {
    assert_eq!(atoi(&b"007".to_vec()), Some(7));
    assert_eq!(atoi(&b"-007".to_vec()), Some(-7));
    assert_eq!(atoi(&b"-0".to_vec()), Some(0));
}

#[test]
fn dec_bytes_u64_renders_large_values() {
    assert_eq!(dec_bytes_u64(0), b"0".to_vec());
    assert_eq!(dec_bytes_u64(u64::MAX), b"18446744073709551615".to_vec());
}

#[test]
fn kv_parses_two_pairs_in_order() {
    let pairs = string_to_kv(&b"a=1&b=2".to_vec(), b'&', b'=').unwrap();
    assert_eq!(
        pairs,
        vec![
            (b"a".to_vec(), b"1".to_vec()),
            (b"b".to_vec(), b"2".to_vec()),
        ]
    );
}

#[test]
fn kv_rejects_text_without_any_separator() {
    assert_eq!(
        string_to_kv(&b"abc".to_vec(), b'&', b'='),
        Err(StringToKVError::NotKeyValueText)
    );
}

#[test]
fn kv_rejects_token_without_separator() {
    assert_eq!(
        string_to_kv(&b"a=1&bc".to_vec(), b'&', b'='),
        Err(StringToKVError::MalformedToken)
    );
    assert_eq!(
        string_to_kv(&b"a=1&&b=2".to_vec(), b'&', b'='),
        Err(StringToKVError::MalformedToken)
    );
}

#[test]
fn kv_rejects_too_many_pairs() {
    let frame = b"a=1&b=2&c=3&d=4&e=5&f=6&g=7&h=8&i=9&j=10&k=11".to_vec();
    assert_eq!(
        string_to_kv(&frame, b'&', b'='),
        Err(StringToKVError::CapacityExceeded)
    );
}

#[test]
fn kv_keeps_duplicate_keys_in_order() {
    let pairs = string_to_kv(&b"a=1&a=2".to_vec(), b'&', b'=').unwrap();
    assert_eq!(
        pairs,
        vec![
            (b"a".to_vec(), b"1".to_vec()),
            (b"a".to_vec(), b"2".to_vec()),
        ]
    );
}

#[test]
fn kv_splits_each_token_only_once() {
    let pairs = string_to_kv(&b"a=1=2".to_vec(), b'&', b'=').unwrap();
    assert_eq!(pairs, vec![(b"a".to_vec(), b"1=2".to_vec())]);
}

#[test]
fn encoder_emits_exact_wire_text() {
    let wire = encode_key_event(KeyboardCodes::Down, 1200);
    assert_eq!(wire, b"len=32&wh=128,128&kc=d&keypressms=1200\r\n".to_vec());
}

#[test]
fn encoder_len_field_matches_body_length() {
    let wire = encode_key_event(KeyboardCodes::Down, 1200);
    let text = String::from_utf8(wire).unwrap();
    let rest = text.strip_prefix("len=").unwrap();
    let amp = rest.find('&').unwrap();
    let declared: usize = rest[..amp].parse().unwrap();
    let body = rest[amp..].strip_suffix("\r\n").unwrap();
    assert_eq!(declared, body.len());
}

#[test]
fn encoder_len_field_matches_for_every_key() {
    for (key, c) in [
        (KeyboardCodes::Up, 'u'),
        (KeyboardCodes::Down, 'd'),
        (KeyboardCodes::Left, 'l'),
        (KeyboardCodes::Right, 'r'),
        (KeyboardCodes::Okay, 'o'),
    ] {
        for hold in [0u64, 1, 260, 1040, 123456, u64::MAX] {
            let wire = encode_key_event(key, hold);
            let text = String::from_utf8(wire).unwrap();
            let rest = text.strip_prefix("len=").unwrap();
            let amp = rest.find('&').unwrap();
            let declared: usize = rest[..amp].parse().unwrap();
            let body = rest[amp..].strip_suffix("\r\n").unwrap();
            assert_eq!(declared, body.len());
            assert!(body.contains(&format!("&kc={c}&")));
            assert!(body.ends_with(&format!("&keypressms={hold}")));
        }
    }
}

#[test]
fn key_codes_render_their_wire_characters() {
    assert_eq!(KeyboardCodes::Up.as_u8(), b'u');
    assert_eq!(KeyboardCodes::Down.as_u8(), b'd');
    assert_eq!(KeyboardCodes::Left.as_u8(), b'l');
    assert_eq!(KeyboardCodes::Right.as_u8(), b'r');
    assert_eq!(KeyboardCodes::Okay.as_u8(), b'o');
    assert_eq!(KeyboardCodes::Up.as_char(), 'u');
    assert_eq!(KeyboardCodes::Down.as_char(), 'd');
    assert_eq!(KeyboardCodes::Left.as_char(), 'l');
    assert_eq!(KeyboardCodes::Right.as_char(), 'r');
    assert_eq!(KeyboardCodes::Okay.as_char(), 'o');
}
