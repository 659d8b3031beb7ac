use krunker_client::codec::{Codec, ProtocolDecodeError};
use krunker_client::messages::{classify_message, MessageBuilder, MsgValue};
use serde_json::Value;

fn msgpack_pong() -> Vec<u8> {
    let value = Value::Array(vec![Value::String(String::from("po"))]);
    rmp_serde::to_vec(&value).unwrap()
}

#[test]
fn encode_pong_prime_eleven_first_frame() {
    let mut codec = Codec::new(11);
    let payload = MessageBuilder::pong();
    let frame = codec.encode_message(payload);

    let mut expected = msgpack_pong();
    expected.push(0x00);
    expected.push(0x0b);
    assert_eq!(frame, expected);
    assert_eq!(codec.num, 11);
}

#[test]
fn encode_pong_prime_eleven_second_frame() {
    let mut codec = Codec::new(11);
    let _ = codec.encode_message(MessageBuilder::pong());
    let frame = codec.encode_message(MessageBuilder::pong());

    // num advanced 11 -> 22; nibbles 0x1 and 0x6.
    let mut expected = msgpack_pong();
    expected.push(0x01);
    expected.push(0x06);
    assert_eq!(frame, expected);
    assert_eq!(codec.num, 22);
}

#[test]
fn counter_wraps_modulo_256() {
    let mut codec = Codec::new(250);
    let _ = codec.encode_message(vec![1]);
    assert_eq!(codec.num, 250);
    let _ = codec.encode_message(vec![1]);
    assert_eq!(codec.num, (250 + 250) % 256);
}

#[test]
fn strip_padding_round_trip() {
    let mut codec = Codec::new(4242);
    let payload = MessageBuilder::load();
    let frame = codec.encode_message(payload.clone());
    let stripped = Codec::strip_padding(&frame).unwrap();
    assert_eq!(stripped, payload);
}

#[test]
fn strip_padding_rejects_short_frames() {
    assert_eq!(
        Codec::strip_padding(&vec![0x91, 0xa0]),
        Err(ProtocolDecodeError::DecodeTooShort)
    );
    assert_eq!(
        Codec::strip_padding(&vec![]),
        Err(ProtocolDecodeError::DecodeTooShort)
    );
}

#[test]
fn padding_is_ignored_by_the_receiver() {
    let mut a = Codec::new(11);
    let mut b = Codec::new(199);
    let fa = a.encode_message(MessageBuilder::pong());
    let fb = b.encode_message(MessageBuilder::pong());
    assert_ne!(fa, fb);
    assert_eq!(
        Codec::strip_padding(&fa).unwrap(),
        Codec::strip_padding(&fb).unwrap()
    );
}

#[test]
fn classify_message_shapes() {
    let ok = classify_message(MsgValue::Arr(vec![
        MsgValue::Str(String::from("pi")),
        MsgValue::Int(3),
    ]))
    .unwrap();
    assert_eq!(ok.0, String::from("pi"));
    assert_eq!(ok.1.len(), 1);

    assert!(matches!(
        classify_message(MsgValue::Int(1)),
        Err(ProtocolDecodeError::DecodeNotArray)
    ));
    assert!(matches!(
        classify_message(MsgValue::Arr(vec![])),
        Err(ProtocolDecodeError::DecodeNoType)
    ));
    assert!(matches!(
        classify_message(MsgValue::Arr(vec![MsgValue::Int(1)])),
        Err(ProtocolDecodeError::DecodeNoType)
    ));
}
