//! The player engine: the connection state machine driven by inbound
//! messages, the fixed-interval tick step with client-side motion
//! prediction, reconciliation against authoritative updates, and the
//! planning half of `walk_to`.
//!
//! The engine is a pure state machine: a driver owns the socket and the
//! timers, feeds decoded messages and tick events in, and performs the
//! returned actions. Trigonometry cannot be carried out here (the crate
//! holds no floating point), so the driver hands each tick the sine and
//! cosine of the current rotation as fixed-point millionths; every
//! contract holds for any handed value.

use crate::map::{c2i, cwc_candidates, spec_succ_path, GameMap};
use crate::messages::{
    spec_enter, spec_player_state, spec_spawn_position, spec_tick, str_eq, MessageBuilder,
    MessageError, MessageParser, MsgValue, TickFlags,
};
use crate::utils::{Vec3, MAX_RAW_COORD};
use vstd::prelude::*;

verus! {

/// One full turn in milliradians.
pub const TWO_PI_MR: i64 = 6283;

/// Fixed-point one for the driver-supplied sine and cosine values.
pub const TRIG_ONE: i64 = 1_000_000;

/// Client-side prediction threshold on x and z, in milli-units (0.5).
pub const RECONCILE_THRESHOLD_MILLI: i64 = 500;

/// `walk_to` arrival threshold on x and z, in milli-units (2.6).
pub const WALK_TO_XZ_THRESHOLD_MILLI: i64 = 2600;

/// `walk_to` arrival threshold on y, in milli-units (8.25).
pub const WALK_TO_Y_THRESHOLD_MILLI: i64 = 8250;

/// Account credentials; when set, the player logs in instead of
/// readying up directly.
#[derive(Debug, Clone)]
pub struct Account {
    pub username: String,
    pub password: String,
}

impl Account {
    /// Credential strings short enough for the wire format.
    pub open spec fn wf(self) -> bool {
        &&& self.username@.len() < 0x4000_0000
        &&& self.password@.len() < 0x4000_0000
    }
}

/// One snapshot of the predicted state, kept for reconciliation: the
/// tick it was taken at, the predicted position, the rotation and its
/// trigonometric values at that tick, and the walking flag.
#[derive(Debug, Clone, Copy, PartialEq, Eq, Structural)]
pub struct Snapshot {
    pub tick: u32,
    pub position: Vec3,
    pub rotation_mr: i64,
    pub sin_fp: i64,
    pub cos_fp: i64,
    pub walking: bool,
}

/// What the driver must do after feeding an event to the engine.
#[derive(Debug, Clone, Copy, PartialEq, Eq, Structural)]
pub enum Action {
    /// Send the pong payload.
    SendPong,
    /// Send the load acknowledgement.
    SendLoad,
    /// Send the login message.
    SendLogin,
    /// Send the enter-game message.
    SendEnter,
    /// Send the literal init tick.
    SendInitTick,
    /// Refresh the game's metadata and rebind the map by name.
    RefreshGame,
    /// Wait out the respawn delay, then send the enter-game message.
    RespawnThenEnter,
}

/// Errors for operations that need a particular connection state.
#[derive(Debug, Clone, Copy, PartialEq, Eq, Structural)]
pub enum StateError {
    /// The player is already in a game or disconnected.
    AlreadyInGameOrDisconnected,
    /// The player is not in a game, or disconnected.
    NotInGameOrDisconnected,
}

/// Errors surfaced while planning a walk.
#[derive(Debug, Clone, Copy, PartialEq, Eq, Structural)]
pub enum PathError {
    /// The player is not in a game, or disconnected.
    NotInGameOrDisconnected,
    /// No map is bound.
    NoMap,
    /// The player's or the target's position has no walkable cell.
    PositionNotWalkable,
    /// The cells are not connected on the walkable grid.
    NoPath,
}

/// A rotation wrapped once into a full turn: one turn is subtracted
/// above it and added below zero.
pub open spec fn spec_wrap_rot(mr: int) -> int {
    if mr > TWO_PI_MR {
        mr - TWO_PI_MR
    } else if mr < 0 {
        mr + TWO_PI_MR
    } else {
        mr
    }
}

/// The distance walked in one tick, in milli-units: the tick interval
/// in microseconds times the movement speed (4.59e-5 world units per
/// microsecond).
pub open spec fn spec_dist_milli(micros: int) -> int {
    micros * 459 / 10_000
}

/// A fixed-point product `dist * trig / TRIG_ONE`, rounded toward zero.
pub open spec fn spec_scale(dist: int, trig: int) -> int {
    if trig >= 0 {
        dist * trig / (TRIG_ONE as int)
    } else {
        -(dist * (-trig) / (TRIG_ONE as int))
    }
}

/// A coordinate clamped into the accepted range.
pub open spec fn spec_clamp_coord(v: int) -> i64 {
    if v > MAX_RAW_COORD {
        MAX_RAW_COORD
    } else if v < -(MAX_RAW_COORD as int) {
        (-(MAX_RAW_COORD as int)) as i64
    } else {
        v as i64
    }
}

/// One prediction step: the position advanced by `dist` along the
/// facing direction (`x += dist*sin`, `z -= dist*cos`), clamped.
pub open spec fn spec_advance(pos: Vec3, sin_fp: int, cos_fp: int, dist: int) -> Vec3 {
    Vec3 {
        x: spec_clamp_coord(pos.x + spec_scale(dist, sin_fp)),
        y: pos.y,
        z: spec_clamp_coord(pos.z - spec_scale(dist, cos_fp)),
    }
}

/// A position within the accepted coordinate range.
pub open spec fn pos_wf(p: Vec3) -> bool {
    &&& -MAX_RAW_COORD <= p.x <= MAX_RAW_COORD
    &&& -MAX_RAW_COORD <= p.y <= MAX_RAW_COORD
    &&& -MAX_RAW_COORD <= p.z <= MAX_RAW_COORD
}

/// A snapshot whose position and trigonometric values are in range.
pub open spec fn snapshot_wf(s: Snapshot) -> bool {
    &&& pos_wf(s.position)
    &&& -TRIG_ONE <= s.sin_fp <= TRIG_ONE
    &&& -TRIG_ONE <= s.cos_fp <= TRIG_ONE
}

/// The snapshots with a tick at or above the server's, in order — what
/// reconciliation keeps of the first `i` buffer entries.
pub open spec fn spec_kept(buf: Seq<Snapshot>, ts: int, i: int) -> Seq<Snapshot>
    decreases i,
{
    if i <= 0 {
        Seq::empty()
    } else if buf[i - 1].tick >= ts {
        spec_kept(buf, ts, i - 1).push(buf[i - 1])
    } else {
        spec_kept(buf, ts, i - 1)
    }
}

/// Replaying the first `i` kept snapshots from a position: each walking
/// snapshot advances the position by its own rotation's step, and every
/// snapshot's recorded position becomes the running position.
pub open spec fn spec_replay(start: Vec3, buf: Seq<Snapshot>, dist: int, i: int) -> (
    Vec3,
    Seq<Snapshot>,
)
    decreases i,
{
    if i <= 0 {
        (start, Seq::empty())
    } else {
        let (pos, done) = spec_replay(start, buf, dist, i - 1);
        let pos2 = if buf[i - 1].walking {
            spec_advance(pos, buf[i - 1].sin_fp as int, buf[i - 1].cos_fp as int, dist)
        } else {
            pos
        };
        (pos2, done.push(Snapshot { position: pos2, ..buf[i - 1] }))
    }
}

/// The state a player engine carries between events.
pub struct Player {
    /// The tick counter; strictly monotonic within a session, reset to
    /// 1 on spawn.
    pub tick: u32,
    /// The tick interval in microseconds.
    pub tick_interval_micros: u32,
    /// Optional login credentials.
    pub account: Option<Account>,
    /// The server-assigned player id.
    pub id: Option<String>,
    pub disconnected: bool,
    pub ready: bool,
    pub in_game: bool,
    pub walking: bool,
    /// The predicted position, in milli-units.
    pub position: Vec3,
    /// The rotation in milliradians, wrapped into one turn.
    pub rotation_mr: i64,
    /// The bound map, if the game's map is known to the catalog.
    pub map: Option<GameMap>,
    /// Past snapshots kept for reconciliation.
    pub state_buffer: Vec<Snapshot>,
}

impl Player {
    /// The engine's invariant: rotation within one turn, positions and
    /// buffered snapshots in range, a well-formed account and map.
    pub open spec fn wf(self) -> bool {
        &&& 0 <= self.rotation_mr <= TWO_PI_MR
        &&& pos_wf(self.position)
        &&& forall|k: int|
            0 <= k < self.state_buffer@.len() ==> snapshot_wf(#[trigger] self.state_buffer@[k])
        &&& (self.account is Some ==> self.account->0.wf())
        &&& (self.map is Some ==> self.map->0.wf())
    }
}

} // verus!

verus! {

/// Executable coordinate clamp.
fn clamp_coord(v: i64) -> (r: i64)
    ensures
        r == spec_clamp_coord(v as int),
{
    if v > MAX_RAW_COORD {
        MAX_RAW_COORD
    } else if v < -MAX_RAW_COORD {
        -MAX_RAW_COORD
    } else {
        v
    }
}

/// Executable fixed-point scale, rounding toward zero.
fn scale_trig(dist: i64, trig: i64) -> (r: i64)
    requires
        0 <= dist <= 1_000_000_000,
        -TRIG_ONE <= trig <= TRIG_ONE,
    ensures
        r == spec_scale(dist as int, trig as int),
        -1_000_000_000 <= r <= 1_000_000_000,
{
    if trig >= 0 {
        proof {
            assert(0 <= dist * trig <= 1_000_000_000 * 1_000_000) by (nonlinear_arith)
                requires
                    0 <= dist <= 1_000_000_000,
                    0 <= trig <= 1_000_000,
            ;
        }
        let p: i64 = dist * trig;
        proof {
            vstd::arithmetic::div_mod::lemma_fundamental_div_mod(p as int, 1_000_000);
        }
        p / 1_000_000
    } else {
        proof {
            assert(0 <= dist * (-trig) <= 1_000_000_000 * 1_000_000) by (nonlinear_arith)
                requires
                    0 <= dist <= 1_000_000_000,
                    0 <= -trig <= 1_000_000,
            ;
        }
        let p: i64 = dist * (-trig);
        proof {
            vstd::arithmetic::div_mod::lemma_fundamental_div_mod(p as int, 1_000_000);
        }
        -(p / 1_000_000)
    }
}

/// The per-tick walking distance in milli-units.
fn dist_milli(micros: u32) -> (r: i64)
    ensures
        r == spec_dist_milli(micros as int),
        0 <= r <= 1_000_000_000,
{
    let p: i64 = micros as i64 * 459;
    proof {
        vstd::arithmetic::div_mod::lemma_fundamental_div_mod(p as int, 10_000);
    }
    p / 10_000
}

impl Player {
    /// Sets the rotation, wrapped once into `[0, 2*pi)`: callers hand a
    /// value within one turn of that range.
    pub fn rotation(&mut self, rotation_mr: i64)
        requires
            old(self).wf(),
            -TWO_PI_MR <= rotation_mr <= 2 * TWO_PI_MR,
        ensures
            final(self).wf(),
            *final(self) == (Player {
                rotation_mr: spec_wrap_rot(rotation_mr as int) as i64,
                ..*old(self)
            }),
    {
        let wrapped: i64 = if rotation_mr > TWO_PI_MR {
            rotation_mr - TWO_PI_MR
        } else if rotation_mr < 0 {
            rotation_mr + TWO_PI_MR
        } else {
            rotation_mr
        };
        self.rotation_mr = wrapped;
    }

    /// Adds to the rotation, then wraps.
    pub fn rotate(&mut self, delta_mr: i64)
        requires
            old(self).wf(),
            -TWO_PI_MR <= old(self).rotation_mr + delta_mr <= 2 * TWO_PI_MR,
        ensures
            final(self).wf(),
            *final(self) == (Player {
                rotation_mr: spec_wrap_rot(old(self).rotation_mr + delta_mr) as i64,
                ..*old(self)
            }),
    {
        let next: i64 = self.rotation_mr + delta_mr;
        self.rotation(next);
    }

    /// Builds the enter-game payload; refused while in a game or after
    /// disconnecting.
    pub fn enter(&self) -> (r: Result<Vec<u8>, StateError>)
        ensures
            (self.in_game || self.disconnected) ==> r == Result::<Vec<u8>, StateError>::Err(
                StateError::AlreadyInGameOrDisconnected,
            ),
            !(self.in_game || self.disconnected) ==> r is Ok && r->Ok_0@ == spec_enter(),
    {
        if self.in_game || self.disconnected {
            return Err(StateError::AlreadyInGameOrDisconnected);
        }
        Ok(MessageBuilder::enter())
    }

    /// Sets the walking flag and builds the tick payload carrying it;
    /// refused outside a game. Advances the tick counter.
    pub fn walk(&mut self, state: bool) -> (r: Result<Vec<u8>, StateError>)
        requires
            old(self).wf(),
            old(self).tick < u32::MAX,
        ensures
            final(self).wf(),
            (!old(self).in_game || old(self).disconnected) ==> r == Result::<
                Vec<u8>,
                StateError,
            >::Err(StateError::NotInGameOrDisconnected) && *final(self) == *old(self),
            (old(self).in_game && !old(self).disconnected) ==> {
                &&& r is Ok
                &&& r->Ok_0@ == spec_tick(
                    old(self).tick as int,
                    old(self).tick_interval_micros as int,
                    Option::None,
                    Option::Some(TickFlags::Walk(state)),
                )
                &&& *final(self) == (Player {
                    walking: state,
                    tick: (old(self).tick + 1) as u32,
                    ..*old(self)
                })
            },
    {
        if !self.in_game || self.disconnected {
            return Err(StateError::NotInGameOrDisconnected);
        }
        self.walking = state;
        let payload = MessageBuilder::tick(
            self.tick,
            self.tick_interval_micros,
            None,
            Some(TickFlags::Walk(state)),
        );
        self.tick = self.tick + 1;
        Ok(payload)
    }

    /// Builds the tick payload carrying the shooting flags; refused
    /// outside a game. Advances the tick counter.
    pub fn shoot(&mut self, state: bool) -> (r: Result<Vec<u8>, StateError>)
        requires
            old(self).wf(),
            old(self).tick < u32::MAX,
        ensures
            final(self).wf(),
            (!old(self).in_game || old(self).disconnected) ==> r == Result::<
                Vec<u8>,
                StateError,
            >::Err(StateError::NotInGameOrDisconnected) && *final(self) == *old(self),
            (old(self).in_game && !old(self).disconnected) ==> {
                &&& r is Ok
                &&& r->Ok_0@ == spec_tick(
                    old(self).tick as int,
                    old(self).tick_interval_micros as int,
                    Option::None,
                    Option::Some(TickFlags::Shoot(state)),
                )
                &&& *final(self) == (Player { tick: (old(self).tick + 1) as u32, ..*old(self) })
            },
    {
        if !self.in_game || self.disconnected {
            return Err(StateError::NotInGameOrDisconnected);
        }
        let payload = MessageBuilder::tick(
            self.tick,
            self.tick_interval_micros,
            None,
            Some(TickFlags::Shoot(state)),
        );
        self.tick = self.tick + 1;
        Ok(payload)
    }

    /// One timer tick. Outside a game nothing happens. In a game it
    /// builds the regular tick payload with the current rotation,
    /// advances the tick counter, advances the predicted position by
    /// one walking step when walking (the driver hands the rotation's
    /// sine and cosine as fixed-point millionths), and appends a
    /// snapshot to the reconciliation buffer.
    pub fn tick(&mut self, sin_fp: i64, cos_fp: i64) -> (r: Option<Vec<u8>>)
        requires
            old(self).wf(),
            old(self).tick < u32::MAX,
            -TRIG_ONE <= sin_fp <= TRIG_ONE,
            -TRIG_ONE <= cos_fp <= TRIG_ONE,
        ensures
            final(self).wf(),
            !old(self).in_game ==> r is None && *final(self) == *old(self),
            old(self).in_game ==> {
                let dist = spec_dist_milli(old(self).tick_interval_micros as int);
                let new_pos = if old(self).walking {
                    spec_advance(old(self).position, sin_fp as int, cos_fp as int, dist)
                } else {
                    old(self).position
                };
                &&& r is Some
                &&& r->0@ == spec_tick(
                    old(self).tick as int,
                    old(self).tick_interval_micros as int,
                    Option::Some(old(self).rotation_mr as int),
                    Option::None,
                )
                &&& final(self).tick == old(self).tick + 1
                &&& final(self).position == new_pos
                &&& final(self).state_buffer@ == old(self).state_buffer@.push(
                    Snapshot {
                        tick: (old(self).tick + 1) as u32,
                        position: new_pos,
                        rotation_mr: old(self).rotation_mr,
                        sin_fp,
                        cos_fp,
                        walking: old(self).walking,
                    },
                )
                &&& *final(self) == (Player {
                    tick: (old(self).tick + 1) as u32,
                    position: new_pos,
                    state_buffer: final(self).state_buffer,
                    ..*old(self)
                })
            },
    {
        if !self.in_game {
            return None;
        }
        let payload = MessageBuilder::tick(
            self.tick,
            self.tick_interval_micros,
            Some(self.rotation_mr),
            None,
        );
        self.tick = self.tick + 1;
        if self.walking {
            let dist: i64 = dist_milli(self.tick_interval_micros);
            let dx: i64 = scale_trig(dist, sin_fp);
            let dz: i64 = scale_trig(dist, cos_fp);
            self.position = Vec3 {
                x: clamp_coord(self.position.x + dx),
                y: self.position.y,
                z: clamp_coord(self.position.z - dz),
            };
        }
        self.state_buffer.push(
            Snapshot {
                tick: self.tick,
                position: self.position,
                rotation_mr: self.rotation_mr,
                sin_fp,
                cos_fp,
                walking: self.walking,
            },
        );
        Some(payload)
    }

    /// Marks the player disconnected and not in a game; returns whether
    /// the driver must close the socket (idempotent).
    pub fn disconnect(&mut self) -> (close: bool)
        ensures
            final(self).ready == false,
            final(self).in_game == false,
            final(self).disconnected == true,
            close == !old(self).disconnected,
            *final(self) == (Player {
                ready: false,
                in_game: false,
                disconnected: true,
                ..*old(self)
            }),
            old(self).wf() ==> final(self).wf(),
    {
        self.ready = false;
        self.in_game = false;
        if !self.disconnected {
            self.disconnected = true;
            true
        } else {
            false
        }
    }

    pub fn in_game(&self) -> (r: bool)
        ensures
            r == self.in_game,
    {
        self.in_game
    }

    /// The bound map, if any.
    pub fn map(&self) -> (r: Option<&GameMap>)
        ensures
            r is Some <==> self.map is Some,
            r is Some ==> *r->0 == self.map->0,
    {
        self.map.as_ref()
    }

    /// Binds the map the refreshed game metadata names (the driver's
    /// continuation of a `RefreshGame` action); when the player is
    /// ready, the game is entered again.
    pub fn bind_map(&mut self, map: Option<GameMap>) -> (r: Vec<Action>)
        requires
            old(self).wf(),
            map is Some ==> map->0.wf(),
        ensures
            final(self).wf(),
            *final(self) == (Player { map, ..*old(self) }),
            old(self).ready ==> r@ == seq![Action::SendEnter],
            !old(self).ready ==> r@ == Seq::<Action>::empty(),
    {
        self.map = map;
        let mut actions: Vec<Action> = Vec::new();
        if self.ready {
            actions.push(Action::SendEnter);
        }
        proof {
            if old(self).ready {
                assert(actions@ =~= seq![Action::SendEnter]);
            } else {
                assert(actions@ =~= Seq::<Action>::empty());
            }
        }
        actions
    }
}

} // verus!

verus! {

/// The position reconciliation computes for a server update.
pub open spec fn spec_reconcile_pos(p: Player, ts: int, ps: Vec3) -> Vec3 {
    let kept = spec_kept(p.state_buffer@, ts, p.state_buffer@.len() as int);
    let dist = spec_dist_milli(p.tick_interval_micros as int);
    if kept.len() > 0 && !ps.spec_max_diff_xz(kept[0].position, RECONCILE_THRESHOLD_MILLI) {
        spec_replay(ps, kept, dist, kept.len() as int).0
    } else {
        p.position
    }
}

/// The snapshot buffer reconciliation leaves for a server update.
pub open spec fn spec_reconcile_buf(p: Player, ts: int, ps: Vec3) -> Seq<Snapshot> {
    let kept = spec_kept(p.state_buffer@, ts, p.state_buffer@.len() as int);
    let dist = spec_dist_milli(p.tick_interval_micros as int);
    if kept.len() > 0 && !ps.spec_max_diff_xz(kept[0].position, RECONCILE_THRESHOLD_MILLI) {
        spec_replay(ps, kept, dist, kept.len() as int).1
    } else {
        kept
    }
}

impl Player {
    /// Reconciliation against an authoritative update: snapshots older
    /// than the server tick are dropped; when the head snapshot's
    /// prediction is outside the half-unit threshold on x and z, the
    /// position snaps to the server's and every kept snapshot's walking
    /// delta is re-applied with its own rotation, rewriting both the
    /// live position and the snapshots.
    pub fn reconcile(&mut self, server_tick: u32, server_pos: Vec3)
        requires
            old(self).wf(),
            pos_wf(server_pos),
        ensures
            final(self).wf(),
            final(self).position == spec_reconcile_pos(*old(self), server_tick as int, server_pos),
            final(self).state_buffer@ == spec_reconcile_buf(
                *old(self),
                server_tick as int,
                server_pos,
            ),
            *final(self) == (Player {
                position: final(self).position,
                state_buffer: final(self).state_buffer,
                ..*old(self)
            }),
    {
        let ghost buf0 = self.state_buffer@;
        let mut kept: Vec<Snapshot> = Vec::new();
        let n: usize = self.state_buffer.len();
        let mut i: usize = 0;
        while i < n
            invariant
                i <= n,
                n == buf0.len(),
                buf0 == self.state_buffer@,
                forall|k: int| 0 <= k < buf0.len() ==> snapshot_wf(#[trigger] buf0[k]),
                kept@ == spec_kept(buf0, server_tick as int, i as int),
                forall|k: int| 0 <= k < kept@.len() ==> snapshot_wf(#[trigger] kept@[k]),
            decreases n - i,
        {
            let s: Snapshot = self.state_buffer[i];
            if s.tick >= server_tick {
                kept.push(s);
            }
            i += 1;
        }
        let ghost kept0 = kept@;
        let dist: i64 = dist_milli(self.tick_interval_micros);
        let mut snapped: bool = false;
        if kept.len() > 0 {
            let head: Snapshot = kept[0];
            if !server_pos.max_diff_xz(&head.position, RECONCILE_THRESHOLD_MILLI) {
                snapped = true;
                let mut pos: Vec3 = server_pos;
                let m: usize = kept.len();
                let mut j: usize = 0;
                while j < m
                    invariant
                        j <= m,
                        m == kept0.len(),
                        kept@.len() == kept0.len(),
                        0 <= dist <= 1_000_000_000,
                        pos_wf(server_pos),
                        forall|k: int| 0 <= k < kept0.len() ==> snapshot_wf(#[trigger] kept0[k]),
                        pos_wf(pos),
                        pos == spec_replay(server_pos, kept0, dist as int, j as int).0,
                        kept@.subrange(0, j as int) == spec_replay(
                            server_pos,
                            kept0,
                            dist as int,
                            j as int,
                        ).1,
                        kept@.subrange(j as int, kept0.len() as int) == kept0.subrange(
                            j as int,
                            kept0.len() as int,
                        ),
                        forall|k: int| 0 <= k < kept@.len() ==> snapshot_wf(#[trigger] kept@[k]),
                    decreases m - j,
                {
                    proof {
                        assert(kept@[j as int] == kept@.subrange(j as int, kept0.len() as int)[0]);
                        assert(kept@[j as int] == kept0[j as int]);
                    }
                    let s: Snapshot = kept[j];
                    let pos2: Vec3 = if s.walking {
                        let dx: i64 = scale_trig(dist, s.sin_fp);
                        let dz: i64 = scale_trig(dist, s.cos_fp);
                        Vec3 {
                            x: clamp_coord(pos.x + dx),
                            y: pos.y,
                            z: clamp_coord(pos.z - dz),
                        }
                    } else {
                        pos
                    };
                    pos = pos2;
                    let ghost kept_pre = kept@;
                    kept.set(j, Snapshot { position: pos2, ..s });
                    proof {
                        assert forall|k: int| j < k < kept0.len() implies kept@[k] == kept0[k] by {
                            assert(kept_pre.subrange(j as int, kept0.len() as int)[k - j]
                                == kept0.subrange(j as int, kept0.len() as int)[k - j]);
                        }
                        assert(kept@.subrange(0, j + 1 as int) =~= spec_replay(
                            server_pos,
                            kept0,
                            dist as int,
                            j + 1 as int,
                        ).1) by {
                            assert forall|k: int| 0 <= k < j implies kept@[k] == kept_pre.subrange(
                                0,
                                j as int,
                            )[k] by {}
                        }
                        assert(kept@.subrange(j + 1 as int, kept0.len() as int) =~= kept0.subrange(
                            j + 1 as int,
                            kept0.len() as int,
                        ));
                    }
                    j += 1;
                }
                proof {
                    assert(kept@ =~= spec_replay(
                        server_pos,
                        kept0,
                        dist as int,
                        kept0.len() as int,
                    ).1);
                }
                self.position = pos;
            }
        }
        self.state_buffer = kept;
    }
}

} // verus!

verus! {

impl Player {
    /// Dispatches one inbound message through the connection state
    /// machine:
    /// ping begets pong; load begets load; the connection-init message
    /// records the player id; the game-init message asks the driver to
    /// refresh metadata and rebind the map; ready logs in when an
    /// account is set and otherwise readies up and enters; a spawn
    /// carrying the player's own id enters the game at the parsed
    /// position and restarts the tick count at 1; a player update
    /// either reports death (leave the game, respawn after the delay)
    /// or reconciles the prediction; end leaves the game; unknown
    /// types are ignored.
    #[verifier::rlimit(100)]
    pub fn process_message(&mut self, msg_type: &str, msg: &Vec<MsgValue>) -> (r: Result<
        Vec<Action>,
        MessageError,
    >)
        requires
            old(self).wf(),
        ensures
            final(self).wf(),
            msg_type@ == "pi"@ ==> r is Ok && r->Ok_0@ == seq![Action::SendPong] && *final(self)
                == *old(self),
            msg_type@ == "load"@ ==> r is Ok && r->Ok_0@ == seq![Action::SendLoad] && *final(self)
                == *old(self),
            msg_type@ == "io-init"@ ==> {
                if msg@.len() > 0 && msg@[0] is Str {
                    &&& r is Ok
                    &&& r->Ok_0@ == Seq::<Action>::empty()
                    &&& final(self).id is Some
                    &&& final(self).id->0@ == msg@[0]->Str_0@
                    &&& *final(self) == (Player { id: final(self).id, ..*old(self) })
                } else {
                    r == Result::<Vec<Action>, MessageError>::Err(MessageError::WrongMessageType)
                        && *final(self) == *old(self)
                }
            },
            msg_type@ == "init"@ ==> r is Ok && r->Ok_0@ == seq![Action::RefreshGame] && *final(self) == *old(self),
            msg_type@ == "ready"@ ==> {
                if old(self).account is Some {
                    r is Ok && r->Ok_0@ == seq![Action::SendLogin] && *final(self) == *old(self)
                } else {
                    r is Ok && r->Ok_0@ == seq![Action::SendEnter] && *final(self) == (Player {
                        ready: true,
                        ..*old(self)
                    })
                }
            },
            msg_type@ == "0"@ ==> {
                if old(self).id is None {
                    r == Result::<Vec<Action>, MessageError>::Err(MessageError::IdNotSet)
                        && *final(self) == *old(self)
                } else {
                    match spec_spawn_position(msg@, old(self).id->0@) {
                        Result::Err(e) => r == Result::<Vec<Action>, MessageError>::Err(e)
                            && *final(self) == *old(self),
                        Result::Ok(Option::None) => r is Ok && r->Ok_0@ == Seq::<Action>::empty()
                            && *final(self) == *old(self),
                        Result::Ok(Option::Some(pos)) => r is Ok && r->Ok_0@ == seq![
                            Action::SendInitTick,
                        ] && *final(self) == (Player {
                            in_game: true,
                            walking: false,
                            position: pos,
                            tick: 1,
                            ..*old(self)
                        }),
                    }
                }
            },
            msg_type@ == "l"@ ==> match spec_player_state(msg@) {
                Result::Err(e) => r == Result::<Vec<Action>, MessageError>::Err(e) && *final(self)
                    == *old(self),
                Result::Ok(ps) => {
                    if ps.is_dead {
                        r is Ok && r->Ok_0@ == seq![Action::RespawnThenEnter] && *final(self)
                            == (Player { in_game: false, ..*old(self) })
                    } else {
                        &&& r is Ok
                        &&& r->Ok_0@ == Seq::<Action>::empty()
                        &&& final(self).position == spec_reconcile_pos(
                            *old(self),
                            ps.tick->0 as int,
                            ps.position->0,
                        )
                        &&& final(self).state_buffer@ == spec_reconcile_buf(
                            *old(self),
                            ps.tick->0 as int,
                            ps.position->0,
                        )
                        &&& *final(self) == (Player {
                            position: final(self).position,
                            state_buffer: final(self).state_buffer,
                            ..*old(self)
                        })
                    }
                },
            },
            msg_type@ == "end"@ ==> r is Ok && r->Ok_0@ == Seq::<Action>::empty() && *final(self)
                == (Player { in_game: false, ..*old(self) }),
            (msg_type@ != "pi"@ && msg_type@ != "load"@ && msg_type@ != "io-init"@ && msg_type@
                != "init"@ && msg_type@ != "ready"@ && msg_type@ != "0"@ && msg_type@ != "l"@
                && msg_type@ != "end"@) ==> r is Ok && r->Ok_0@ == Seq::<Action>::empty() && *final(self) == *old(self),
    {
        proof {
            reveal_strlit("pi");
            reveal_strlit("load");
            reveal_strlit("io-init");
            reveal_strlit("init");
            reveal_strlit("ready");
            reveal_strlit("0");
            reveal_strlit("l");
            reveal_strlit("end");
            assert("pi"@.len() == 2 && "load"@.len() == 4 && "io-init"@.len() == 7 && "init"@.len()
                == 4 && "ready"@.len() == 5 && "0"@.len() == 1 && "l"@.len() == 1 && "end"@.len()
                == 3);
            assert("load"@ != "init"@) by {
                assert("load"@[0] == 'l' && "init"@[0] == 'i');
            }
            assert("0"@ != "l"@) by {
                assert("0"@[0] == '0' && "l"@[0] == 'l');
            }
        }
        let mut actions: Vec<Action> = Vec::new();
        if str_eq(msg_type, "pi") {
            actions.push(Action::SendPong);
            assert(actions@ =~= seq![Action::SendPong]);
            Ok(actions)
        } else if str_eq(msg_type, "load") {
            actions.push(Action::SendLoad);
            assert(actions@ =~= seq![Action::SendLoad]);
            Ok(actions)
        } else if str_eq(msg_type, "io-init") {
            match MessageParser::io_init(msg) {
                Ok(id) => {
                    self.id = Some(id);
                    assert(actions@ =~= Seq::<Action>::empty());
                    Ok(actions)
                },
                Err(e) => Err(e),
            }
        } else if str_eq(msg_type, "init") {
            actions.push(Action::RefreshGame);
            assert(actions@ =~= seq![Action::RefreshGame]);
            Ok(actions)
        } else if str_eq(msg_type, "ready") {
            if self.account.is_some() {
                actions.push(Action::SendLogin);
                assert(actions@ =~= seq![Action::SendLogin]);
                Ok(actions)
            } else {
                self.ready = true;
                actions.push(Action::SendEnter);
                assert(actions@ =~= seq![Action::SendEnter]);
                Ok(actions)
            }
        } else if str_eq(msg_type, "0") {
            let id: &String = match &self.id {
                Option::Some(id) => id,
                Option::None => {
                    return Err(MessageError::IdNotSet);
                },
            };
            match MessageParser::spawn_position(msg, id.as_str()) {
                Ok(Some(pos)) => {
                    self.in_game = true;
                    self.walking = false;
                    self.position = pos;
                    self.tick = 1;
                    actions.push(Action::SendInitTick);
                    assert(actions@ =~= seq![Action::SendInitTick]);
                    Ok(actions)
                },
                Ok(None) => {
                    assert(actions@ =~= Seq::<Action>::empty());
                    Ok(actions)
                },
                Err(e) => Err(e),
            }
        } else if str_eq(msg_type, "l") {
            match MessageParser::player_state(msg) {
                Ok(state) => {
                    if state.is_dead {
                        self.in_game = false;
                        actions.push(Action::RespawnThenEnter);
                        assert(actions@ =~= seq![Action::RespawnThenEnter]);
                        Ok(actions)
                    } else {
                        let ts: u32 = match state.tick {
                            Option::Some(t) => t,
                            Option::None => 0,
                        };
                        let ps: Vec3 = match state.position {
                            Option::Some(p) => p,
                            Option::None => Vec3 { x: 0, y: 0, z: 0 },
                        };
                        self.reconcile(ts, ps);
                        assert(actions@ =~= Seq::<Action>::empty());
                        Ok(actions)
                    }
                },
                Err(e) => Err(e),
            }
        } else if str_eq(msg_type, "end") {
            self.in_game = false;
            assert(actions@ =~= Seq::<Action>::empty());
            Ok(actions)
        } else {
            assert(actions@ =~= Seq::<Action>::empty());
            Ok(actions)
        }
    }
}

} // verus!

verus! {

impl Player {
    /// Plans a walk: the walkable cell closest to the player's
    /// position, the one closest to the target, and the simplified
    /// cell path between them. Refused outside a game, without a bound
    /// map, when either position has no walkable cell, or when the
    /// cells are not connected.
    pub fn plan_walk(&self, target: &Vec3) -> (r: Result<Vec<(usize, usize, usize)>, PathError>)
        requires
            self.wf(),
            pos_wf(*target),
        ensures
            (!self.in_game || self.disconnected) ==> r == Result::<
                Vec<(usize, usize, usize)>,
                PathError,
            >::Err(PathError::NotInGameOrDisconnected),
            (self.in_game && !self.disconnected && self.map is None) ==> r == Result::<
                Vec<(usize, usize, usize)>,
                PathError,
            >::Err(PathError::NoMap),
            (self.in_game && !self.disconnected && self.map is Some) ==> {
                let m = self.map->0;
                let start_scan = m.cwc_scan(
                    cwc_candidates(crate::utils::spec_position_to_cell(m.bounds, self.position)),
                    0,
                );
                let end_scan = m.cwc_scan(
                    cwc_candidates(crate::utils::spec_position_to_cell(m.bounds, *target)),
                    0,
                );
                let start_found = m.bounds.spec_contains(self.position) && start_scan is Some;
                let end_found = m.bounds.spec_contains(*target) && end_scan is Some;
                if !(start_found && end_found) {
                    r == Result::<Vec<(usize, usize, usize)>, PathError>::Err(
                        PathError::PositionNotWalkable,
                    )
                } else {
                    let sc = start_scan->0;
                    let ec = end_scan->0;
                    match r {
                        Result::Ok(path) => {
                            &&& path@.len() >= 1
                            &&& c2i(path@[0]) == sc
                            &&& c2i(path@[path@.len() - 1]) == ec
                            &&& exists|p: Seq<(int, int, int)>| spec_succ_path(m, p, sc, ec)
                        },
                        Result::Err(e) => e == PathError::NoPath && !(exists|
                            p: Seq<(int, int, int)>,
                        | spec_succ_path(m, p, sc, ec)),
                    }
                }
            },
    {
        if !self.in_game || self.disconnected {
            return Err(PathError::NotInGameOrDisconnected);
        }
        let map: &GameMap = match &self.map {
            Option::Some(m) => m,
            Option::None => {
                return Err(PathError::NoMap);
            },
        };
        let start_cell: (usize, usize, usize) = match map.closest_walkable_cell(&self.position) {
            Option::Some(c) => c,
            Option::None => {
                return Err(PathError::PositionNotWalkable);
            },
        };
        let end_cell: (usize, usize, usize) = match map.closest_walkable_cell(target) {
            Option::Some(c) => c,
            Option::None => {
                return Err(PathError::PositionNotWalkable);
            },
        };
        match map.find_path(&start_cell, &end_cell) {
            Option::Some(path) => {
                proof {
                    let p = choose|p: Seq<(usize, usize, usize)>|
                        {
                            &&& p.len() >= 1
                            &&& p[0] == start_cell
                            &&& p[p.len() - 1] == end_cell
                            &&& (forall|k: int|
                                0 <= k < p.len() - 1 ==> map.spec_is_successor(
                                    c2i(#[trigger] p[k]),
                                    c2i(p[k + 1]),
                                ))
                            &&& path@.len() <= p.len()
                            &&& (forall|j: int|
                                0 <= j < path@.len() ==> exists|ii: int|
                                    0 <= ii < p.len() && #[trigger] path@[j] == p[ii])
                        };
                    let pi = Seq::new(p.len(), |k: int| c2i(p[k]));
                    assert(spec_succ_path(*map, pi, c2i(start_cell), c2i(end_cell)));
                }
                Ok(path)
            },
            Option::None => Err(PathError::NoPath),
        }
    }

    /// Whether one `walk_to` step has arrived at its cell: within 2.6
    /// world units on x and z, and either the previous cell was not
    /// lower or within 8.25 units on y (the relaxation lets the player
    /// run down stairs).
    pub fn walk_step_done(
        position: &Vec3,
        cell_pos: &Vec3,
        last_cell: (usize, usize, usize),
        cell: (usize, usize, usize),
    ) -> (r: bool)
        requires
            pos_wf(*position),
            pos_wf(*cell_pos),
        ensures
            r == (position.spec_max_diff_xz(*cell_pos, WALK_TO_XZ_THRESHOLD_MILLI) && (last_cell.1
                >= cell.1 || position.spec_max_diff_y(*cell_pos, WALK_TO_Y_THRESHOLD_MILLI))),
    {
        position.max_diff_xz(cell_pos, WALK_TO_XZ_THRESHOLD_MILLI) && (last_cell.1 >= cell.1
            || position.max_diff_y(cell_pos, WALK_TO_Y_THRESHOLD_MILLI))
    }
}

/// Configuration for a player: the tick interval (66 ms by default)
/// and optional login credentials.
pub struct PlayerBuilder {
    pub tick_interval_micros: u32,
    pub account: Option<Account>,
}

impl PlayerBuilder {
    pub fn new() -> (r: PlayerBuilder)
        ensures
            r.tick_interval_micros == 66_000,
            r.account is None,
    {
        PlayerBuilder { tick_interval_micros: 66_000, account: None }
    }

    pub fn tick_interval(self, tick_interval_micros: u32) -> (r: PlayerBuilder)
        ensures
            r.tick_interval_micros == tick_interval_micros,
            r.account == self.account,
    {
        PlayerBuilder { tick_interval_micros, ..self }
    }

    pub fn account(self, account: Account) -> (r: PlayerBuilder)
        ensures
            r.tick_interval_micros == self.tick_interval_micros,
            r.account == Option::Some(account),
    {
        PlayerBuilder { account: Some(account), ..self }
    }

    /// The initial engine state for a fresh connection.
    pub fn build(self) -> (r: Player)
        requires
            self.account is Some ==> self.account->0.wf(),
        ensures
            r.wf(),
            r.tick == 0,
            r.tick_interval_micros == self.tick_interval_micros,
            r.account == self.account,
            r.id is None,
            !r.disconnected && !r.ready && !r.in_game && !r.walking,
            r.position == (Vec3 { x: 0, y: 0, z: 0 }),
            r.rotation_mr == 0,
            r.map is None,
            r.state_buffer@ == Seq::<Snapshot>::empty(),
    {
        Player {
            tick: 0,
            tick_interval_micros: self.tick_interval_micros,
            account: self.account,
            id: None,
            disconnected: false,
            ready: false,
            in_game: false,
            walking: false,
            position: Vec3 { x: 0, y: 0, z: 0 },
            rotation_mr: 0,
            map: None,
            state_buffer: Vec::new(),
        }
    }
}

/// Wrapping a rotation one full turn past an angle comes back to the
/// angle, and wrapping a small negative angle lands the same distance
/// below a full turn.
pub proof fn lemma_rotation_wrap(delta: int)
    requires
        0 < delta <= TWO_PI_MR,
    ensures
        spec_wrap_rot(TWO_PI_MR + delta) == delta,
        spec_wrap_rot(-delta) == TWO_PI_MR - delta,
{
}

/// With rotation zero the prediction step leaves x unchanged and moves
/// z backwards by the whole step distance (while it stays in range).
pub proof fn lemma_prediction_straight(pos: Vec3, dist: int)
    requires
        pos_wf(pos),
        0 <= dist,
        -MAX_RAW_COORD <= pos.z - dist,
    ensures
        spec_advance(pos, 0, TRIG_ONE as int, dist) == (Vec3 {
            x: pos.x,
            y: pos.y,
            z: (pos.z - dist) as i64,
        }),
{
    assert(dist * 0 == 0) by (nonlinear_arith);
    assert(dist * (TRIG_ONE as int) / (TRIG_ONE as int) == dist) by {
        vstd::arithmetic::div_mod::lemma_div_multiples_vanish(dist, TRIG_ONE as int);
    }
}

/// The reconciliation threshold: a server position within half a world
/// unit of the head snapshot on both x and z keeps the client's
/// prediction; one outside it snaps the position to the server's and
/// replays the kept snapshots.
pub proof fn lemma_reconciliation_threshold(p: Player, ts: int, ps: Vec3)
    requires
        spec_kept(p.state_buffer@, ts, p.state_buffer@.len() as int).len() > 0,
    ensures
        ({
            let kept = spec_kept(p.state_buffer@, ts, p.state_buffer@.len() as int);
            &&& (ps.spec_max_diff_xz(kept[0].position, RECONCILE_THRESHOLD_MILLI)
                ==> spec_reconcile_pos(p, ts, ps) == p.position && spec_reconcile_buf(p, ts, ps)
                == kept)
            &&& (!ps.spec_max_diff_xz(kept[0].position, RECONCILE_THRESHOLD_MILLI)
                ==> spec_reconcile_pos(p, ts, ps) == spec_replay(
                ps,
                kept,
                spec_dist_milli(p.tick_interval_micros as int),
                kept.len() as int,
            ).0)
        }),
{
}

} // verus!
