use krunker_client::codec::Codec;
use krunker_client::map::{GameMap, RawMap, RawMapConfig, RawMapObject};
use krunker_client::messages::{MessageError, MsgValue};
use krunker_client::player::{Account, Action, PathError, Player, PlayerBuilder, StateError};
use krunker_client::Vec3;
use serde_json::Value;

fn fresh_player() -> Player {
    PlayerBuilder::new().build()
}

fn spawn_msg(id: &str, x: i64, y: i64, z: i64) -> Vec<MsgValue> {
    vec![MsgValue::Arr(vec![
        MsgValue::Str(String::from(id)),
        MsgValue::Int(0),
        MsgValue::Int(x),
        MsgValue::Int(y),
        MsgValue::Int(z),
    ])]
}

/// Drives a fresh player into a game at the given whole-unit position.
fn in_game_player(x: i64, y: i64, z: i64) -> Player {
    let mut p = fresh_player();
    p.process_message("io-init", &vec![MsgValue::Str(String::from("me"))])
        .unwrap();
    let actions = p.process_message("0", &spawn_msg("me", x, y, z)).unwrap();
    assert_eq!(actions, vec![Action::SendInitTick]);
    assert!(p.in_game());
    assert_eq!(p.tick, 1);
    p
}

#[test]
fn ping_begets_pong_on_the_wire() {
    let mut p = fresh_player();
    let actions = p.process_message("pi", &vec![]).unwrap();
    assert_eq!(actions, vec![Action::SendPong]);

    // The next outbound frame decodes back to ["po"].
    let mut codec = Codec::new(11);
    let frame = codec.encode_message(krunker_client::MessageBuilder::pong());
    let stripped = Codec::strip_padding(&frame).unwrap();
    let value: Value = rmp_serde::from_slice(&stripped).unwrap();
    let arr = value.as_array().unwrap();
    assert_eq!(arr.len(), 1);
    assert_eq!(arr[0], Value::String(String::from("po")));
}

#[test]
fn ready_without_account_readies_and_enters() {
    let mut p = fresh_player();
    assert!(!p.ready);
    let actions = p.process_message("ready", &vec![]).unwrap();
    assert!(p.ready);
    assert_eq!(actions, vec![Action::SendEnter]);

    // The emitted enter message carries the fixed literal loadout.
    let value: Value = rmp_serde::from_slice(&krunker_client::MessageBuilder::enter()).unwrap();
    let arr = value.as_array().unwrap();
    assert_eq!(arr[0], Value::String(String::from("en")));
    let loadout = arr[1].as_array().unwrap();
    assert_eq!(loadout.len(), 27);
    assert_eq!(loadout[1], Value::Number(serde_json::Number::from(2482)));
    assert_eq!(arr[2], Value::Number(serde_json::Number::from(16)));
    assert_eq!(arr[3], Value::Number(serde_json::Number::from(18)));
    assert_eq!(arr[4], Value::Bool(false));
}

#[test]
fn ready_with_account_logs_in_instead() {
    let mut p = PlayerBuilder::new()
        .account(Account { username: String::from("u"), password: String::from("p") })
        .build();
    let actions = p.process_message("ready", &vec![]).unwrap();
    assert_eq!(actions, vec![Action::SendLogin]);
    assert!(!p.ready);
}

#[test]
fn load_and_init_and_unknown_messages() {
    let mut p = fresh_player();
    assert_eq!(p.process_message("load", &vec![]).unwrap(), vec![Action::SendLoad]);
    assert_eq!(p.process_message("init", &vec![]).unwrap(), vec![Action::RefreshGame]);
    assert_eq!(p.process_message("weird", &vec![]).unwrap(), vec![]);
}

#[test]
fn spawn_before_io_init_fails() {
    let mut p = fresh_player();
    assert_eq!(
        p.process_message("0", &spawn_msg("me", 0, 0, 0)),
        Err(MessageError::IdNotSet)
    );
}

#[test]
fn spawn_with_other_id_is_ignored() {
    let mut p = fresh_player();
    p.process_message("io-init", &vec![MsgValue::Str(String::from("me"))])
        .unwrap();
    let actions = p.process_message("0", &spawn_msg("other", 1, 2, 3)).unwrap();
    assert_eq!(actions, vec![]);
    assert!(!p.in_game());
}

#[test]
fn spawn_enters_the_game() {
    let p = in_game_player(5, 6, 7);
    assert_eq!(p.position, Vec3 { x: 5_000, y: 6_000, z: 7_000 });
    assert!(!p.walking);
}

#[test]
fn tick_advances_the_counter_and_buffers_a_snapshot() {
    let mut p = in_game_player(0, 0, 0);
    let bytes = p.tick(0, 1_000_000).unwrap();
    assert_eq!(p.tick, 2);
    assert_eq!(p.state_buffer.len(), 1);
    assert_eq!(p.state_buffer[0].tick, 2);
    // Not walking: the position does not move.
    assert_eq!(p.position, Vec3 { x: 0, y: 0, z: 0 });
    let value: Value = rmp_serde::from_slice(&bytes).unwrap();
    assert_eq!(value.as_array().unwrap()[2], Value::Number(serde_json::Number::from(1)));
}

#[test]
fn tick_outside_a_game_does_nothing() {
    let mut p = fresh_player();
    assert_eq!(p.tick(0, 1_000_000), None);
    assert_eq!(p.tick, 0);
}

#[test]
fn walking_tick_advances_the_position() {
    // 66 ms tick, rotation 0 (sin 0, cos 1): one tick moves z by
    // -66_000 * 4.59e-5 = -3.0294 world units, 3029 milli-units in
    // fixed point.
    let mut p = in_game_player(0, 0, 0);
    p.walk(true).unwrap();
    assert!(p.walking);
    p.tick(0, 1_000_000).unwrap();
    assert_eq!(p.position, Vec3 { x: 0, y: 0, z: -3_029 });
    p.tick(0, 1_000_000).unwrap();
    assert_eq!(p.position, Vec3 { x: 0, y: 0, z: -6_058 });
}

#[test]
fn reconciliation_keeps_prediction_within_threshold() {
    let mut p = in_game_player(5, 0, 0);
    p.tick(0, 1_000_000).unwrap();
    assert_eq!(p.state_buffer.len(), 1);
    assert_eq!(p.state_buffer[0].tick, 2);
    // Server reports (5.4, 0, 0) at tick 2: within 0.5 on x and z.
    let msg = vec![MsgValue::Arr(vec![
        MsgValue::Int(2),
        MsgValue::Int(0),
        MsgValue::Float(5_400),
        MsgValue::Int(0),
        MsgValue::Int(0),
    ])];
    p.process_message("l", &msg).unwrap();
    assert_eq!(p.position, Vec3 { x: 5_000, y: 0, z: 0 });
}

#[test]
fn reconciliation_snaps_outside_threshold() {
    let mut p = in_game_player(5, 0, 0);
    p.tick(0, 1_000_000).unwrap();
    // Server reports (5.6, 0, 0) at tick 2: outside 0.5 on x.
    let msg = vec![MsgValue::Arr(vec![
        MsgValue::Int(2),
        MsgValue::Int(0),
        MsgValue::Float(5_600),
        MsgValue::Int(0),
        MsgValue::Int(0),
    ])];
    p.process_message("l", &msg).unwrap();
    assert_eq!(p.position, Vec3 { x: 5_600, y: 0, z: 0 });
    assert_eq!(p.state_buffer[0].position, Vec3 { x: 5_600, y: 0, z: 0 });
}

#[test]
fn reconciliation_drops_stale_snapshots() {
    let mut p = in_game_player(0, 0, 0);
    p.tick(0, 1_000_000).unwrap();
    p.tick(0, 1_000_000).unwrap();
    p.tick(0, 1_000_000).unwrap();
    assert_eq!(p.state_buffer.len(), 3);
    // Server tick 3 drops the tick-2 snapshot.
    let msg = vec![MsgValue::Arr(vec![
        MsgValue::Int(3),
        MsgValue::Int(0),
        MsgValue::Int(0),
        MsgValue::Int(0),
        MsgValue::Int(0),
    ])];
    p.process_message("l", &msg).unwrap();
    assert_eq!(p.state_buffer.len(), 2);
    assert_eq!(p.state_buffer[0].tick, 3);
}

#[test]
fn death_leaves_the_game_and_respawns() {
    let mut p = in_game_player(0, 0, 0);
    let actions = p.process_message("l", &vec![MsgValue::Int(0)]).unwrap();
    assert_eq!(actions, vec![Action::RespawnThenEnter]);
    assert!(!p.in_game());
}

#[test]
fn end_leaves_the_game() {
    let mut p = in_game_player(0, 0, 0);
    let actions = p.process_message("end", &vec![]).unwrap();
    assert_eq!(actions, vec![]);
    assert!(!p.in_game());
}

#[test]
fn rotation_wraps_into_one_turn() {
    let mut p = fresh_player();
    // 2*pi + delta comes back to delta (milliradians).
    p.rotation(6_283 + 1_571);
    assert_eq!(p.rotation_mr, 1_571);
    // A negative rotation lands the same distance below a full turn.
    let mut q = fresh_player();
    q.rotate(-1_571);
    assert_eq!(q.rotation_mr, 6_283 - 1_571);
}

#[test]
fn state_guards_reject_wrong_states() {
    let mut p = fresh_player();
    assert_eq!(p.walk(true), Err(StateError::NotInGameOrDisconnected));
    assert_eq!(p.shoot(true), Err(StateError::NotInGameOrDisconnected));

    let mut q = in_game_player(0, 0, 0);
    assert_eq!(q.enter(), Err(StateError::AlreadyInGameOrDisconnected));
    assert!(q.shoot(true).is_ok());
    let r = fresh_player();
    assert!(r.enter().is_ok());
}

#[test]
fn disconnect_is_idempotent() {
    let mut p = in_game_player(0, 0, 0);
    assert!(p.disconnect());
    assert!(!p.in_game());
    assert!(p.disconnected);
    assert!(!p.disconnect());
}

fn flat_map() -> GameMap {
    let raw = RawMap {
        name: String::from("flat"),
        sizes: vec![100_000, 7_500, 100_000, 1_000, 30_000, 1_000],
        objects: vec![
            RawMapObject {
                position: [0, -7_500, 0],
                size_index: Some(0),
                id: None,
                not_collidable: None,
                border: None,
                direction: None,
            },
            RawMapObject {
                position: [49_000, -7_500, 49_000],
                size_index: Some(1),
                id: None,
                not_collidable: None,
                border: None,
                direction: None,
            },
        ],
        config: RawMapConfig { modes: vec![0] },
        spawns: vec![vec![Some(0), Some(0), Some(0)]],
    };
    GameMap::new(&raw).unwrap()
}

#[test]
fn plan_walk_finds_a_path_on_the_bound_map() {
    let mut p = in_game_player(0, 0, 0);
    let actions = p.bind_map(Some(flat_map()));
    assert_eq!(actions, vec![]);
    let path = p.plan_walk(&Vec3 { x: 20_000, y: 0, z: 20_000 }).unwrap();
    assert!(path.len() >= 1);
    assert_eq!(path[0], (20, 3, 20));
    assert_eq!(path[path.len() - 1], (28, 3, 28));
}

#[test]
fn plan_walk_errors() {
    let mut idle = fresh_player();
    idle.map = Some(flat_map());
    assert_eq!(
        idle.plan_walk(&Vec3 { x: 0, y: 0, z: 0 }),
        Err(PathError::NotInGameOrDisconnected)
    );

    let mut no_map = in_game_player(0, 0, 0);
    assert_eq!(no_map.plan_walk(&Vec3 { x: 0, y: 0, z: 0 }), Err(PathError::NoMap));

    let mut p = in_game_player(0, 0, 0);
    p.bind_map(Some(flat_map()));
    assert_eq!(
        p.plan_walk(&Vec3 { x: 70_000, y: 0, z: 0 }),
        Err(PathError::PositionNotWalkable)
    );
}

#[test]
fn walk_step_threshold() {
    let at = Vec3 { x: 1_000, y: 0, z: 1_000 };
    let close = Vec3 { x: 3_000, y: 0, z: 2_000 };
    let far = Vec3 { x: 4_000, y: 0, z: 1_000 };
    assert!(Player::walk_step_done(&at, &close, (0, 5, 0), (0, 4, 0)));
    assert!(!Player::walk_step_done(&at, &far, (0, 5, 0), (0, 4, 0)));
    // Climbing (previous cell lower) re-checks the y distance.
    let above = Vec3 { x: 1_000, y: 9_000, z: 1_000 };
    assert!(!Player::walk_step_done(&at, &above, (0, 4, 0), (0, 5, 0)));
    assert!(Player::walk_step_done(&at, &above, (0, 5, 0), (0, 4, 0)));
}

#[test]
fn builder_defaults() {
    let b = PlayerBuilder::new();
    assert_eq!(b.tick_interval_micros, 66_000);
    let p = b.tick_interval(10_000).build();
    assert_eq!(p.tick_interval_micros, 10_000);
    assert_eq!(p.tick, 0);
    assert!(!p.in_game());
}
