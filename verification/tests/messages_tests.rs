use krunker_client::messages::{
    MessageBuilder, MessageError, MessageParser, MsgValue, TickFlags,
};
use krunker_client::player::Account;
use krunker_client::Vec3;
use serde_json::Value;

fn num(n: i64) -> Value {
    Value::Number(serde_json::Number::from(n))
}

fn pack(value: &Value) -> Vec<u8> {
    rmp_serde::to_vec(value).unwrap()
}

#[test]
fn pong_matches_msgpack() {
    let expected = pack(&Value::Array(vec![Value::String(String::from("po"))]));
    assert_eq!(MessageBuilder::pong(), expected);
}

#[test]
fn load_matches_msgpack() {
    let expected = pack(&Value::Array(vec![
        Value::String(String::from("load")),
        Value::Null,
    ]));
    assert_eq!(MessageBuilder::load(), expected);
}

#[test]
fn login_matches_msgpack() {
    let account = Account {
        username: String::from("user"),
        password: String::from("pw"),
    };
    let expected = pack(&Value::Array(vec![
        Value::String(String::from("a")),
        num(1),
        Value::Array(vec![
            Value::String(String::from("user")),
            Value::String(String::from("pw")),
            Value::Null,
        ]),
        Value::Null,
    ]));
    assert_eq!(MessageBuilder::login(&account), expected);
}

#[test]
fn enter_matches_msgpack_literal() {
    let loadout: Vec<Value> = vec![
        num(0),
        num(2482),
        Value::Array(vec![num(-1), num(-1)]),
        num(-1),
        num(-1),
        num(2),
        num(0),
        num(0),
        num(1),
        num(-1),
        num(-1),
        num(1),
        num(0),
        num(-1),
        num(-1),
        num(-1),
        num(-1),
        num(-1),
        num(-1),
        num(0),
        num(-1),
        num(-1),
        num(1),
        num(1),
        num(1),
        num(1),
        num(-1),
    ];
    let expected = pack(&Value::Array(vec![
        Value::String(String::from("en")),
        Value::Array(loadout),
        num(16),
        num(18),
        Value::Bool(false),
    ]));
    assert_eq!(MessageBuilder::enter(), expected);
}

#[test]
fn init_tick_bytes() {
    // ["q", 0, 0, "3000", 2, [0, 0], {"0-4": -1, "0-5": 0, ..., "0-14": 0}]
    // written out byte by byte, keys in the order the protocol lists them.
    let mut expected: Vec<u8> = vec![0x97, 0xa1, b'q', 0x00, 0x00, 0xa4, b'3', b'0', b'0', b'0',
        0x02, 0x92, 0x00, 0x00, 0x8b];
    let keys: [&str; 11] = [
        "0-4", "0-5", "0-6", "0-7", "0-8", "0-9", "0-10", "0-11", "0-12", "0-13", "0-14",
    ];
    for (i, key) in keys.iter().enumerate() {
        expected.push(0xa0 + key.len() as u8);
        expected.extend_from_slice(key.as_bytes());
        expected.push(if i == 0 { 0xff } else { 0x00 });
    }
    assert_eq!(MessageBuilder::init_tick(), expected);
}

#[test]
fn tick_dt_is_clamped_at_3333_for_66ms() {
    let bytes = MessageBuilder::tick(5, 66_000, None, None);
    let value: Value = rmp_serde::from_slice(&bytes).unwrap();
    let arr = value.as_array().unwrap();
    assert_eq!(arr[0], Value::String(String::from("q")));
    assert_eq!(arr[2], num(5));
    assert_eq!(arr[3], Value::String(String::from("3333")));
    assert_eq!(arr[5], Value::Null);
    assert_eq!(arr[6], Value::Null);
}

#[test]
fn tick_dt_for_10ms_is_1000() {
    let bytes = MessageBuilder::tick(0, 10_000, None, None);
    let value: Value = rmp_serde::from_slice(&bytes).unwrap();
    assert_eq!(value.as_array().unwrap()[3], Value::String(String::from("1000")));
}

#[test]
fn tick_dt_for_33330us_is_3333() {
    let bytes = MessageBuilder::tick(0, 33_330, None, None);
    let value: Value = rmp_serde::from_slice(&bytes).unwrap();
    assert_eq!(value.as_array().unwrap()[3], Value::String(String::from("3333")));
}

#[test]
fn tick_rotation_is_negated_milliradians() {
    let bytes = MessageBuilder::tick(1, 66_000, Some(1571), None);
    let value: Value = rmp_serde::from_slice(&bytes).unwrap();
    let arr = value.as_array().unwrap();
    let rot = arr[5].as_array().unwrap();
    assert_eq!(rot[0], num(0));
    assert_eq!(rot[1], num(-1571));
}

#[test]
fn tick_walk_state_object() {
    let on = MessageBuilder::tick(1, 66_000, None, Some(TickFlags::Walk(true)));
    let value: Value = rmp_serde::from_slice(&on).unwrap();
    let state = value.as_array().unwrap()[6].as_object().unwrap().clone();
    assert_eq!(state.len(), 1);
    assert_eq!(state["0-4"], num(1));

    let off = MessageBuilder::tick(1, 66_000, None, Some(TickFlags::Walk(false)));
    let value: Value = rmp_serde::from_slice(&off).unwrap();
    assert_eq!(value.as_array().unwrap()[6].as_object().unwrap()["0-4"], num(-1));
}

#[test]
fn tick_shoot_state_object() {
    let on = MessageBuilder::tick(1, 66_000, None, Some(TickFlags::Shoot(true)));
    let value: Value = rmp_serde::from_slice(&on).unwrap();
    let state = value.as_array().unwrap()[6].as_object().unwrap().clone();
    assert_eq!(state.len(), 2);
    assert_eq!(state["0-5"], num(1));
    assert_eq!(state["0-6"], num(1));
}

#[test]
fn io_init_reads_the_id() {
    let msg = vec![MsgValue::Str(String::from("player-7"))];
    assert_eq!(MessageParser::io_init(&msg).unwrap(), String::from("player-7"));
}

#[test]
fn io_init_rejects_bad_shapes() {
    assert_eq!(
        MessageParser::io_init(&vec![]),
        Err(MessageError::WrongMessageType)
    );
    assert_eq!(
        MessageParser::io_init(&vec![MsgValue::Int(3)]),
        Err(MessageError::WrongMessageType)
    );
}

#[test]
fn spawn_position_finds_own_id() {
    let positions = vec![
        MsgValue::Str(String::from("other")),
        MsgValue::Int(9),
        MsgValue::Int(1),
        MsgValue::Int(2),
        MsgValue::Int(3),
        MsgValue::Str(String::from("me")),
        MsgValue::Int(0),
        MsgValue::Int(5),
        MsgValue::Float(6_500),
        MsgValue::Int(7),
    ];
    let msg = vec![MsgValue::Arr(positions)];
    let pos = MessageParser::spawn_position(&msg, "me").unwrap().unwrap();
    assert_eq!(pos, Vec3 { x: 5_000, y: 6_500, z: 7_000 });
}

#[test]
fn spawn_position_absent_id_is_none() {
    let msg = vec![MsgValue::Arr(vec![
        MsgValue::Str(String::from("other")),
        MsgValue::Int(0),
        MsgValue::Int(1),
        MsgValue::Int(2),
        MsgValue::Int(3),
    ])];
    assert_eq!(MessageParser::spawn_position(&msg, "me").unwrap(), None);
}

#[test]
fn spawn_position_errors() {
    assert_eq!(
        MessageParser::spawn_position(&vec![], "me"),
        Err(MessageError::WrongMessageType)
    );
    assert_eq!(
        MessageParser::spawn_position(&vec![MsgValue::Int(1)], "me"),
        Err(MessageError::WrongMessageType)
    );
    // id present but coordinates missing
    let short = vec![MsgValue::Arr(vec![MsgValue::Str(String::from("me"))])];
    assert_eq!(
        MessageParser::spawn_position(&short, "me"),
        Err(MessageError::WrongMessageType)
    );
    // id present but a coordinate has the wrong type
    let bad = vec![MsgValue::Arr(vec![
        MsgValue::Str(String::from("me")),
        MsgValue::Int(0),
        MsgValue::Null,
        MsgValue::Int(2),
        MsgValue::Int(3),
    ])];
    assert_eq!(
        MessageParser::spawn_position(&bad, "me"),
        Err(MessageError::PositionWrongType)
    );
}

#[test]
fn player_state_dead() {
    let state = MessageParser::player_state(&vec![MsgValue::Int(0)]).unwrap();
    assert!(state.is_dead);
    assert_eq!(state.tick, None);
    assert_eq!(state.position, None);
}

#[test]
fn player_state_alive() {
    let msg = vec![MsgValue::Arr(vec![
        MsgValue::Int(42),
        MsgValue::Int(0),
        MsgValue::Float(1_500),
        MsgValue::Int(2),
        MsgValue::Int(3),
    ])];
    let state = MessageParser::player_state(&msg).unwrap();
    assert!(!state.is_dead);
    assert_eq!(state.tick, Some(42));
    assert_eq!(state.position, Some(Vec3 { x: 1_500, y: 2_000, z: 3_000 }));
}

#[test]
fn player_state_errors() {
    assert_eq!(
        MessageParser::player_state(&vec![]),
        Err(MessageError::WrongMessageType)
    );
    assert_eq!(
        MessageParser::player_state(&vec![MsgValue::Int(7)]),
        Err(MessageError::WrongMessageType)
    );
    let bad_tick = vec![MsgValue::Arr(vec![
        MsgValue::Str(String::from("x")),
        MsgValue::Int(0),
        MsgValue::Int(1),
        MsgValue::Int(2),
        MsgValue::Int(3),
    ])];
    assert_eq!(
        MessageParser::player_state(&bad_tick),
        Err(MessageError::TickWrongType)
    );
}

#[test]
fn error_text() {
    let msg = vec![MsgValue::Str(String::from("boom"))];
    assert_eq!(MessageParser::error(&msg), String::from("boom"));
    assert_eq!(MessageParser::error(&vec![]), String::new());
    assert_eq!(MessageParser::error(&vec![MsgValue::Int(1)]), String::new());
}

#[test]
fn login_with_long_credentials_matches_msgpack() {
    // Exercises the str8 and str16 string forms.
    let user: String = "u".repeat(40);
    let pass: String = "p".repeat(700);
    let account = Account { username: user.clone(), password: pass.clone() };
    let expected = pack(&Value::Array(vec![
        Value::String(String::from("a")),
        num(1),
        Value::Array(vec![Value::String(user), Value::String(pass), Value::Null]),
        Value::Null,
    ]));
    assert_eq!(MessageBuilder::login(&account), expected);
}

#[test]
fn login_with_very_long_credential_matches_msgpack() {
    // Exercises the str32 string form (more than 65535 bytes).
    let user: String = "u".repeat(70_000);
    let account = Account { username: user.clone(), password: String::from("p") };
    let expected = pack(&Value::Array(vec![
        Value::String(String::from("a")),
        num(1),
        Value::Array(vec![
            Value::String(user),
            Value::String(String::from("p")),
            Value::Null,
        ]),
        Value::Null,
    ]));
    assert_eq!(MessageBuilder::login(&account), expected);
}
