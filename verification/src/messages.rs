//! The domain's message schema: a small closed set of tagged arrays.
//!
//! `MessageBuilder` produces the MessagePack payload bytes of each
//! outbound message, specified byte-exactly. `MessageParser` reads the
//! consumed inbound messages out of `MsgValue`, the crate's model of a
//! decoded MessagePack value (numbers carried as fixed-point
//! milli-units).

use crate::pack::{
    pack_array, pack_bool, pack_dec_str, pack_map, pack_nil, pack_sint, pack_str,
    push_array_header, push_bool, push_dec_str, push_map_header, push_nil, push_sint, push_str,
};
use crate::player::Account;
use crate::utils::{Vec3, MAX_RAW_COORD};
use vstd::prelude::*;

verus! {

/// A decoded MessagePack value, as far as the client's logic reads it.
///
/// JSON-style numbers are split into integers and non-integers; the
/// latter are carried as fixed-point milli-units (thousandths). Values
/// of any other shape (objects, out-of-range numbers, binary) decode to
/// `Opaque`, which no parser accepts.
#[derive(Debug)]
pub enum MsgValue {
    Null,
    Bool(bool),
    Int(i64),
    Float(i64),
    Str(String),
    Arr(Vec<MsgValue>),
    Opaque,
}

/// Schema-level failures when reading an inbound message.
#[derive(Debug, Clone, Copy, PartialEq, Eq, Structural)]
pub enum MessageError {
    /// The message's shape did not match its type.
    WrongMessageType,
    /// A position field was not a usable number.
    PositionWrongType,
    /// A tick field was not a usable integer.
    TickWrongType,
    /// A spawn message arrived before the server assigned an id.
    IdNotSet,
}

// ---------------------------------------------------------------------
// Outbound messages
// ---------------------------------------------------------------------

/// Builds the MessagePack payloads of the outbound messages; the frame
/// codec appends the rolling padding afterwards.
pub struct MessageBuilder;

/// Payload of the pong message `["po"]`.
pub open spec fn spec_pong() -> Seq<u8> {
    pack_array(1) + pack_str("po"@)
}

/// Payload of the load acknowledgement `["load", null]`.
pub open spec fn spec_load() -> Seq<u8> {
    pack_array(2) + pack_str("load"@) + pack_nil()
}

/// Payload of the login message `["a", 1, [username, password, null], null]`.
pub open spec fn spec_login(username: Seq<char>, password: Seq<char>) -> Seq<u8> {
    pack_array(4) + pack_str("a"@) + pack_sint(1) + pack_array(3) + pack_str(username) + pack_str(
        password,
    ) + pack_nil() + pack_nil()
}

/// The fixed 27-element loadout array inside the enter-game message.
pub open spec fn spec_enter_loadout() -> Seq<u8> {
    pack_sint(0) + pack_sint(2482) + pack_array(2) + pack_sint(-1) + pack_sint(-1) + pack_sint(-1)
        + pack_sint(-1) + pack_sint(2) + pack_sint(0) + pack_sint(0) + pack_sint(1) + pack_sint(-1)
        + pack_sint(-1) + pack_sint(1) + pack_sint(0) + pack_sint(-1) + pack_sint(-1) + pack_sint(
        -1,
    ) + pack_sint(-1) + pack_sint(-1) + pack_sint(-1) + pack_sint(0) + pack_sint(-1) + pack_sint(
        -1,
    ) + pack_sint(1) + pack_sint(1) + pack_sint(1) + pack_sint(1) + pack_sint(-1)
}

/// Payload of the enter-game message `["en", <loadout>, 16, 18, false]`.
pub open spec fn spec_enter() -> Seq<u8> {
    pack_array(5) + pack_str("en"@) + pack_array(27) + spec_enter_loadout() + pack_sint(16)
        + pack_sint(18) + pack_bool(false)
}

/// The first six literal state keys of the init tick, `"0-4"` through
/// `"0-9"`, with `-1` on the first and `0` on the rest.
pub open spec fn spec_init_tick_keys_low() -> Seq<u8> {
    pack_str("0-4"@) + pack_sint(-1) + pack_str("0-5"@) + pack_sint(0) + pack_str("0-6"@)
        + pack_sint(0) + pack_str("0-7"@) + pack_sint(0) + pack_str("0-8"@) + pack_sint(0)
        + pack_str("0-9"@) + pack_sint(0)
}

/// The last five literal state keys of the init tick, `"0-10"` through
/// `"0-14"`, all zero.
pub open spec fn spec_init_tick_keys_high() -> Seq<u8> {
    pack_str("0-10"@) + pack_sint(0) + pack_str("0-11"@) + pack_sint(0) + pack_str("0-12"@)
        + pack_sint(0) + pack_str("0-13"@) + pack_sint(0) + pack_str("0-14"@) + pack_sint(0)
}

/// The eleven literal state keys of the init tick, `"0-4"` through
/// `"0-14"`, with `-1` on the first and `0` on the rest.
pub open spec fn spec_init_tick_state() -> Seq<u8> {
    pack_map(11) + spec_init_tick_keys_low() + spec_init_tick_keys_high()
}

/// Payload of the literal init tick
/// `["q", 0, 0, "3000", 2, [0, 0], {state}]`.
pub open spec fn spec_init_tick() -> Seq<u8> {
    pack_array(7) + pack_str("q"@) + pack_sint(0) + pack_sint(0) + pack_str("3000"@) + pack_sint(2)
        + pack_array(2) + pack_sint(0) + pack_sint(0) + spec_init_tick_state()
}

/// The per-tick state object of a regular tick: either the walking flag
/// (`"0-4"`, 1 on and -1 off) or the shooting flags (`"0-5"`/`"0-6"`,
/// both 1 on and 0 off).
#[derive(Debug, Clone, Copy, PartialEq, Eq, Structural)]
pub enum TickFlags {
    Walk(bool),
    Shoot(bool),
}

/// Bytes of the state object of a regular tick, or nil when absent.
pub open spec fn spec_tick_state(state: Option<TickFlags>) -> Seq<u8> {
    match state {
        Option::None => pack_nil(),
        Option::Some(TickFlags::Walk(w)) => pack_map(1) + pack_str("0-4"@) + pack_sint(
            if w {
                1
            } else {
                -1
            },
        ),
        Option::Some(TickFlags::Shoot(s)) => {
            let v = if s {
                1int
            } else {
                0int
            };
            pack_map(2) + pack_str("0-5"@) + pack_sint(v) + pack_str("0-6"@) + pack_sint(v)
        },
    }
}

/// Bytes of the rotation field: `[0, -rotation]` for a rotation in
/// milliradians, or nil when absent.
pub open spec fn spec_tick_rotation(rotation_mr: Option<int>) -> Seq<u8> {
    match rotation_mr {
        Option::None => pack_nil(),
        Option::Some(mr) => pack_array(2) + pack_sint(0) + pack_sint(-mr),
    }
}

/// The dt field of a regular tick: the tick interval in tens of
/// microseconds, rounded half up and clamped at 3333.
pub open spec fn spec_dt(tick_interval_micros: int) -> int {
    let rounded = (tick_interval_micros + 5) / 10;
    if rounded > 3333 {
        3333
    } else {
        rounded
    }
}

/// Payload of a regular tick
/// `["q", 0, tick, dt, 2, rotation_or_null, state_or_null]`.
pub open spec fn spec_tick(
    num_tick: int,
    tick_interval_micros: int,
    rotation_mr: Option<int>,
    state: Option<TickFlags>,
) -> Seq<u8> {
    pack_array(7) + pack_str("q"@) + pack_sint(0) + pack_sint(num_tick) + pack_dec_str(
        spec_dt(tick_interval_micros),
    ) + pack_sint(2) + spec_tick_rotation(rotation_mr) + spec_tick_state(state)
}

impl MessageBuilder {
    pub fn pong() -> (r: Vec<u8>)
        ensures
            r@ == spec_pong(),
    {
        proof {
            reveal_strlit("po");
        }
        let mut out: Vec<u8> = Vec::new();
        push_array_header(&mut out, 1);
        push_str(&mut out, "po");
        assert(out@ =~= spec_pong());
        out
    }

    pub fn load() -> (r: Vec<u8>)
        ensures
            r@ == spec_load(),
    {
        proof {
            reveal_strlit("load");
        }
        let mut out: Vec<u8> = Vec::new();
        push_array_header(&mut out, 2);
        push_str(&mut out, "load");
        push_nil(&mut out);
        assert(out@ =~= spec_load());
        out
    }

    pub fn login(account: &Account) -> (r: Vec<u8>)
        requires
            account.wf(),
        ensures
            r@ == spec_login(account.username@, account.password@),
    {
        proof {
            reveal_strlit("a");
        }
        let mut out: Vec<u8> = Vec::new();
        push_array_header(&mut out, 4);
        push_str(&mut out, "a");
        push_sint(&mut out, 1);
        push_array_header(&mut out, 3);
        push_str(&mut out, account.username.as_str());
        push_str(&mut out, account.password.as_str());
        push_nil(&mut out);
        push_nil(&mut out);
        assert(out@ =~= spec_login(account.username@, account.password@));
        out
    }

    #[verifier::rlimit(40)]
    pub fn enter() -> (r: Vec<u8>)
        ensures
            r@ == spec_enter(),
    {
        proof {
            reveal_strlit("en");
        }
        let mut out: Vec<u8> = Vec::new();
        push_array_header(&mut out, 5);
        push_str(&mut out, "en");
        push_array_header(&mut out, 27);
        push_sint(&mut out, 0);
        push_sint(&mut out, 2482);
        push_array_header(&mut out, 2);
        push_sint(&mut out, -1);
        push_sint(&mut out, -1);
        push_sint(&mut out, -1);
        push_sint(&mut out, -1);
        push_sint(&mut out, 2);
        push_sint(&mut out, 0);
        push_sint(&mut out, 0);
        push_sint(&mut out, 1);
        push_sint(&mut out, -1);
        push_sint(&mut out, -1);
        push_sint(&mut out, 1);
        push_sint(&mut out, 0);
        push_sint(&mut out, -1);
        push_sint(&mut out, -1);
        push_sint(&mut out, -1);
        push_sint(&mut out, -1);
        push_sint(&mut out, -1);
        push_sint(&mut out, -1);
        push_sint(&mut out, 0);
        push_sint(&mut out, -1);
        push_sint(&mut out, -1);
        push_sint(&mut out, 1);
        push_sint(&mut out, 1);
        push_sint(&mut out, 1);
        push_sint(&mut out, 1);
        push_sint(&mut out, -1);
        push_sint(&mut out, 16);
        push_sint(&mut out, 18);
        push_bool(&mut out, false);
        assert(out@ =~= spec_enter());
        out
    }

    #[verifier::rlimit(40)]
    pub fn init_tick() -> (r: Vec<u8>)
        ensures
            r@ == spec_init_tick(),
    {
        proof {
            reveal_strlit("q");
            reveal_strlit("3000");
            reveal_strlit("0-4");
            reveal_strlit("0-5");
            reveal_strlit("0-6");
            reveal_strlit("0-7");
            reveal_strlit("0-8");
            reveal_strlit("0-9");
            reveal_strlit("0-10");
            reveal_strlit("0-11");
            reveal_strlit("0-12");
            reveal_strlit("0-13");
            reveal_strlit("0-14");
        }
        let mut out: Vec<u8> = Vec::new();
        push_array_header(&mut out, 7);
        push_str(&mut out, "q");
        push_sint(&mut out, 0);
        push_sint(&mut out, 0);
        push_str(&mut out, "3000");
        push_sint(&mut out, 2);
        push_array_header(&mut out, 2);
        push_sint(&mut out, 0);
        push_sint(&mut out, 0);
        Self::push_init_tick_state(&mut out);
        assert(out@ =~= spec_init_tick());
        out
    }

    fn push_init_tick_state(out: &mut Vec<u8>)
        ensures
            final(out)@ == old(out)@ + spec_init_tick_state(),
    {
        push_map_header(out, 11);
        Self::push_init_tick_keys_low(out);
        Self::push_init_tick_keys_high(out);
        assert(out@ =~= old(out)@ + spec_init_tick_state());
    }

    #[verifier::rlimit(60)]
    fn push_init_tick_keys_low(out: &mut Vec<u8>)
        ensures
            final(out)@ == old(out)@ + spec_init_tick_keys_low(),
    {
        proof {
            reveal_strlit("0-4");
            reveal_strlit("0-5");
            reveal_strlit("0-6");
            reveal_strlit("0-7");
            reveal_strlit("0-8");
            reveal_strlit("0-9");
        }
        push_str(out, "0-4");
        push_sint(out, -1);
        push_str(out, "0-5");
        push_sint(out, 0);
        push_str(out, "0-6");
        push_sint(out, 0);
        push_str(out, "0-7");
        push_sint(out, 0);
        push_str(out, "0-8");
        push_sint(out, 0);
        push_str(out, "0-9");
        push_sint(out, 0);
        assert(out@ =~= old(out)@ + spec_init_tick_keys_low());
    }

    #[verifier::rlimit(60)]
    fn push_init_tick_keys_high(out: &mut Vec<u8>)
        ensures
            final(out)@ == old(out)@ + spec_init_tick_keys_high(),
    {
        proof {
            reveal_strlit("0-10");
            reveal_strlit("0-11");
            reveal_strlit("0-12");
            reveal_strlit("0-13");
            reveal_strlit("0-14");
        }
        push_str(out, "0-10");
        push_sint(out, 0);
        push_str(out, "0-11");
        push_sint(out, 0);
        push_str(out, "0-12");
        push_sint(out, 0);
        push_str(out, "0-13");
        push_sint(out, 0);
        push_str(out, "0-14");
        push_sint(out, 0);
        assert(out@ =~= old(out)@ + spec_init_tick_keys_high());
    }

    #[verifier::rlimit(40)]
    pub fn tick(
        num_tick: u32,
        tick_interval_micros: u32,
        rotation_mr: Option<i64>,
        state: Option<TickFlags>,
    ) -> (r: Vec<u8>)
        requires
            rotation_mr is Some ==> -0x7f000000 <= rotation_mr->0 <= 0x7f000000,
        ensures
            r@ == spec_tick(
                num_tick as int,
                tick_interval_micros as int,
                match rotation_mr {
                    Option::None => Option::<int>::None,
                    Option::Some(mr) => Option::Some(mr as int),
                },
                state,
            ),
    {
        proof {
            reveal_strlit("q");
            reveal_strlit("0-4");
            reveal_strlit("0-5");
            reveal_strlit("0-6");
        }
        let dt64: u64 = (tick_interval_micros as u64 + 5) / 10;
        let dt: u32 = if dt64 > 3333 {
            3333
        } else {
            dt64 as u32
        };
        let mut out: Vec<u8> = Vec::new();
        push_array_header(&mut out, 7);
        push_str(&mut out, "q");
        push_sint(&mut out, 0);
        push_sint(&mut out, num_tick as i64);
        push_dec_str(&mut out, dt);
        push_sint(&mut out, 2);
        match rotation_mr {
            Option::None => push_nil(&mut out),
            Option::Some(mr) => {
                push_array_header(&mut out, 2);
                push_sint(&mut out, 0);
                push_sint(&mut out, -mr);
            },
        }
        match state {
            Option::None => push_nil(&mut out),
            Option::Some(TickFlags::Walk(w)) => {
                push_map_header(&mut out, 1);
                push_str(&mut out, "0-4");
                push_sint(
                    &mut out,
                    if w {
                        1
                    } else {
                        -1
                    },
                );
            },
            Option::Some(TickFlags::Shoot(s)) => {
                let v: i64 = if s {
                    1
                } else {
                    0
                };
                push_map_header(&mut out, 2);
                push_str(&mut out, "0-5");
                push_sint(&mut out, v);
                push_str(&mut out, "0-6");
                push_sint(&mut out, v);
            },
        }
        assert(out@ =~= spec_tick(
            num_tick as int,
            tick_interval_micros as int,
            match rotation_mr {
                Option::None => Option::<int>::None,
                Option::Some(mr) => Option::Some(mr as int),
            },
            state,
        ));
        out
    }
}

// ---------------------------------------------------------------------
// Inbound messages
// ---------------------------------------------------------------------

/// What a player-update message reports: death, or the server's
/// authoritative tick and position.
#[derive(Debug, Clone, Copy, PartialEq, Eq, Structural)]
pub struct PlayerState {
    pub is_dead: bool,
    pub tick: Option<u32>,
    pub position: Option<Vec3>,
}

/// The milli-unit value of a numeric message field, when it is a number
/// whose milli-unit form fits the accepted coordinate range.
pub open spec fn spec_num_milli(v: MsgValue) -> Option<int> {
    match v {
        MsgValue::Int(i) => if -1_000_000_000 <= i <= 1_000_000_000 {
            Option::Some(1000 * i)
        } else {
            Option::None
        },
        MsgValue::Float(m) => if -MAX_RAW_COORD <= m <= MAX_RAW_COORD {
            Option::Some(m as int)
        } else {
            Option::None
        },
        _ => Option::None,
    }
}

/// The first index at or after `i` holding the string `id`, if any.
pub open spec fn spec_find_id(ps: Seq<MsgValue>, id: Seq<char>, i: int) -> Option<int>
    decreases ps.len() - i,
{
    if i < 0 || i >= ps.len() {
        Option::None
    } else if (ps[i] matches MsgValue::Str(s) && s@ == id) {
        Option::Some(i)
    } else {
        spec_find_id(ps, id, i + 1)
    }
}

/// The position triple read at indices `i+2 .. i+4` of a spawn payload.
pub open spec fn spec_position_at(ps: Seq<MsgValue>, i: int) -> Result<Vec3, MessageError> {
    if i + 2 >= ps.len() {
        Result::Err(MessageError::WrongMessageType)
    } else if spec_num_milli(ps[i + 2]) is None {
        Result::Err(MessageError::PositionWrongType)
    } else if i + 3 >= ps.len() {
        Result::Err(MessageError::WrongMessageType)
    } else if spec_num_milli(ps[i + 3]) is None {
        Result::Err(MessageError::PositionWrongType)
    } else if i + 4 >= ps.len() {
        Result::Err(MessageError::WrongMessageType)
    } else if spec_num_milli(ps[i + 4]) is None {
        Result::Err(MessageError::PositionWrongType)
    } else {
        Result::Ok(
            Vec3 {
                x: spec_num_milli(ps[i + 2])->0 as i64,
                y: spec_num_milli(ps[i + 3])->0 as i64,
                z: spec_num_milli(ps[i + 4])->0 as i64,
            },
        )
    }
}

/// The result of reading a spawn message's own-position, given the
/// player id: `Ok(None)` when the id is absent from the payload.
pub open spec fn spec_spawn_position(
    msg: Seq<MsgValue>,
    id: Seq<char>,
) -> Result<Option<Vec3>, MessageError> {
    if msg.len() == 0 {
        Result::Err(MessageError::WrongMessageType)
    } else {
        match msg[0] {
            MsgValue::Arr(ps) => match spec_find_id(ps@, id, 0) {
                Option::None => Result::Ok(Option::None),
                Option::Some(i) => match spec_position_at(ps@, i) {
                    Result::Ok(p) => Result::Ok(Option::Some(p)),
                    Result::Err(e) => Result::Err(e),
                },
            },
            _ => Result::Err(MessageError::WrongMessageType),
        }
    }
}

/// The result of reading a player-update message.
pub open spec fn spec_player_state(msg: Seq<MsgValue>) -> Result<PlayerState, MessageError> {
    if msg.len() == 0 {
        Result::Err(MessageError::WrongMessageType)
    } else {
        match msg[0] {
            MsgValue::Int(v) => if v == 0 {
                Result::Ok(PlayerState { is_dead: true, tick: Option::None, position: Option::None })
            } else {
                Result::Err(MessageError::WrongMessageType)
            },
            MsgValue::Arr(a) => if a@.len() == 0 {
                Result::Err(MessageError::WrongMessageType)
            } else if !(a@[0] matches MsgValue::Int(t) && 0 <= t <= u32::MAX) {
                Result::Err(MessageError::TickWrongType)
            } else {
                match spec_position_at(a@, 0) {
                    Result::Ok(p) => Result::Ok(
                        PlayerState {
                            is_dead: false,
                            tick: Option::Some(a@[0]->Int_0 as u32),
                            position: Option::Some(p),
                        },
                    ),
                    Result::Err(e) => Result::Err(e),
                }
            },
            _ => Result::Err(MessageError::WrongMessageType),
        }
    }
}

/// Compares two string slices by contents.
pub fn str_eq(a: &str, b: &str) -> (r: bool)
    ensures
        r == (a@ == b@),
{
    let ab: &[u8] = a.as_bytes();
    let bb: &[u8] = b.as_bytes();
    proof {
        vstd::utf8::encode_utf8_decode_utf8(a@);
        vstd::utf8::encode_utf8_decode_utf8(b@);
    }
    if ab.len() != bb.len() {
        proof {
            if a@ == b@ {
                assert(ab@ == bb@);
            }
        }
        return false;
    }
    let n: usize = ab.len();
    let mut i: usize = 0;
    while i < n
        invariant
            i <= n,
            n == ab@.len(),
            n == bb@.len(),
            ab@ == vstd::utf8::encode_utf8(a@),
            bb@ == vstd::utf8::encode_utf8(b@),
            forall|j: int| 0 <= j < i ==> ab@[j] == bb@[j],
        decreases n - i,
    {
        let x = ab[i];
        let y = bb[i];
        if x != y {
            proof {
                if a@ == b@ {
                    assert(ab@[i as int] == bb@[i as int]);
                }
            }
            return false;
        }
        i += 1;
    }
    proof {
        assert(ab@ =~= bb@);
        vstd::utf8::encode_utf8_decode_utf8(a@);
        vstd::utf8::encode_utf8_decode_utf8(b@);
        assert(a@ == vstd::utf8::decode_utf8(ab@));
        assert(b@ == vstd::utf8::decode_utf8(bb@));
    }
    true
}

/// Reads the consumed inbound messages out of their argument arrays.
pub struct MessageParser;

impl MessageParser {
    /// The connection-init message: its first argument is the
    /// server-assigned player id string.
    pub fn io_init(msg: &Vec<MsgValue>) -> (r: Result<String, MessageError>)
        ensures
            msg@.len() == 0 ==> r == Result::<String, MessageError>::Err(
                MessageError::WrongMessageType,
            ),
            msg@.len() > 0 ==> match msg@[0] {
                MsgValue::Str(s) => r is Ok && r->Ok_0@ == s@,
                _ => r == Result::<String, MessageError>::Err(MessageError::WrongMessageType),
            },
    {
        if msg.len() == 0 {
            return Err(MessageError::WrongMessageType);
        }
        match &msg[0] {
            MsgValue::Str(s) => Ok(s.clone()),
            _ => Err(MessageError::WrongMessageType),
        }
    }

    /// The milli-unit value of a numeric field, per `spec_num_milli`.
    fn num_milli(v: &MsgValue) -> (r: Option<i64>)
        ensures
            match r {
                Option::Some(m) => spec_num_milli(*v) == Option::Some(m as int),
                Option::None => spec_num_milli(*v) is None,
            },
    {
        match v {
            MsgValue::Int(i) => {
                let i = *i;
                if -1_000_000_000 <= i && i <= 1_000_000_000 {
                    Some(1000 * i)
                } else {
                    None
                }
            },
            MsgValue::Float(m) => {
                let m = *m;
                if -MAX_RAW_COORD <= m && m <= MAX_RAW_COORD {
                    Some(m)
                } else {
                    None
                }
            },
            _ => None,
        }
    }

    /// The position triple at `i+2 .. i+4`, per `spec_position_at`.
    fn position_at(ps: &Vec<MsgValue>, i: usize) -> (r: Result<Vec3, MessageError>)
        ensures
            r == spec_position_at(ps@, i as int),
    {
        let n: usize = ps.len();
        if i >= n || n - i <= 2 {
            return Err(MessageError::WrongMessageType);
        }
        let x = match Self::num_milli(&ps[i + 2]) {
            Some(m) => m,
            None => {
                return Err(MessageError::PositionWrongType);
            },
        };
        if n - i <= 3 {
            return Err(MessageError::WrongMessageType);
        }
        let y = match Self::num_milli(&ps[i + 3]) {
            Some(m) => m,
            None => {
                return Err(MessageError::PositionWrongType);
            },
        };
        if n - i <= 4 {
            return Err(MessageError::WrongMessageType);
        }
        let z = match Self::num_milli(&ps[i + 4]) {
            Some(m) => m,
            None => {
                return Err(MessageError::PositionWrongType);
            },
        };
        Ok(Vec3 { x, y, z })
    }

    /// The player's own spawn position in a spawn message: the payload is
    /// a flat array alternating ids and coordinates, and the player's id
    /// is followed (two fields on) by its coordinate triple.
    pub fn spawn_position(msg: &Vec<MsgValue>, id: &str) -> (r: Result<
        Option<Vec3>,
        MessageError,
    >)
        ensures
            r == spec_spawn_position(msg@, id@),
    {
        if msg.len() == 0 {
            return Err(MessageError::WrongMessageType);
        }
        let ps: &Vec<MsgValue> = match &msg[0] {
            MsgValue::Arr(ps) => ps,
            _ => {
                return Err(MessageError::WrongMessageType);
            },
        };
        let mut i: usize = 0;
        while i < ps.len()
            invariant
                i <= ps@.len(),
                msg@.len() > 0,
                msg@[0] == MsgValue::Arr(*ps),
                spec_find_id(ps@, id@, 0) == spec_find_id(ps@, id@, i as int),
            decreases ps@.len() - i,
        {
            let hit = match &ps[i] {
                MsgValue::Str(s) => str_eq(s.as_str(), id),
                _ => false,
            };
            if hit {
                assert(spec_find_id(ps@, id@, i as int) == Option::Some(i as int));
                return match Self::position_at(ps, i) {
                    Ok(p) => Ok(Some(p)),
                    Err(e) => Err(e),
                };
            }
            i += 1;
        }
        Ok(None)
    }

    /// A player-update message: the integer 0 reports death; otherwise an
    /// array carrying the server tick and the authoritative position.
    pub fn player_state(msg: &Vec<MsgValue>) -> (r: Result<PlayerState, MessageError>)
        ensures
            r == spec_player_state(msg@),
    {
        if msg.len() == 0 {
            return Err(MessageError::WrongMessageType);
        }
        match &msg[0] {
            MsgValue::Int(v) => {
                if *v == 0 {
                    Ok(PlayerState { is_dead: true, tick: None, position: None })
                } else {
                    Err(MessageError::WrongMessageType)
                }
            },
            MsgValue::Arr(a) => {
                if a.len() == 0 {
                    return Err(MessageError::WrongMessageType);
                }
                let tick: u32 = match &a[0] {
                    MsgValue::Int(t) => {
                        if 0 <= *t && *t <= u32::MAX as i64 {
                            *t as u32
                        } else {
                            return Err(MessageError::TickWrongType);
                        }
                    },
                    _ => {
                        return Err(MessageError::TickWrongType);
                    },
                };
                match Self::position_at(a, 0) {
                    Ok(p) => Ok(
                        PlayerState {
                            is_dead: false,
                            tick: Some(tick),
                            position: Some(p),
                        },
                    ),
                    Err(e) => Err(e),
                }
            },
            _ => Err(MessageError::WrongMessageType),
        }
    }

    /// The text of an error message: its first argument when that is a
    /// string, the empty string otherwise.
    pub fn error(msg: &Vec<MsgValue>) -> (r: String)
        ensures
            (msg@.len() >= 1 && msg@[0] is Str) ==> r@ == msg@[0]->Str_0@,
            !(msg@.len() >= 1 && msg@[0] is Str) ==> r@ == Seq::<char>::empty(),
    {
        if msg.len() >= 1 {
            if let MsgValue::Str(s) = &msg[0] {
                return s.clone();
            }
        }
        String::new()
    }
}

} // verus!

verus! {

/// Classifies a decoded payload as a tagged message: it must be a
/// non-empty array whose head is a string; the head becomes the type
/// and the rest the argument list.
pub fn classify_message(value: MsgValue) -> (r: Result<
    (String, Vec<MsgValue>),
    crate::codec::ProtocolDecodeError,
>)
    ensures
        match value {
            MsgValue::Arr(items) => {
                if items@.len() == 0 {
                    r == Result::<(String, Vec<MsgValue>), crate::codec::ProtocolDecodeError>::Err(
                        crate::codec::ProtocolDecodeError::DecodeNoType,
                    )
                } else {
                    match items@[0] {
                        MsgValue::Str(head) => {
                            &&& r is Ok
                            &&& r->Ok_0.0@ == head@
                            &&& r->Ok_0.1@ == items@.subrange(1, items@.len() as int)
                        },
                        _ => r == Result::<
                            (String, Vec<MsgValue>),
                            crate::codec::ProtocolDecodeError,
                        >::Err(crate::codec::ProtocolDecodeError::DecodeNoType),
                    }
                }
            },
            _ => r == Result::<(String, Vec<MsgValue>), crate::codec::ProtocolDecodeError>::Err(
                crate::codec::ProtocolDecodeError::DecodeNotArray,
            ),
        },
{
    let mut items: Vec<MsgValue> = match value {
        MsgValue::Arr(items) => items,
        _ => {
            return Err(crate::codec::ProtocolDecodeError::DecodeNotArray);
        },
    };
    if items.len() == 0 {
        return Err(crate::codec::ProtocolDecodeError::DecodeNoType);
    }
    let ghost items0 = items@;
    let head_value: MsgValue = items.remove(0);
    let head: String = match head_value {
        MsgValue::Str(head) => head,
        _ => {
            return Err(crate::codec::ProtocolDecodeError::DecodeNoType);
        },
    };
    proof {
        assert(items@ =~= items0.subrange(1, items0.len() as int));
    }
    Ok((head, items))
}

} // verus!
