//! Automated client for a browser-based multiplayer shooter.
//!
//! The crate covers the game's wire protocol (MessagePack-framed tagged
//! arrays with two rolling padding bytes), the player tick engine with
//! client-side prediction and reconciliation, and the map preprocessor
//! and 3D pathfinder.
//!
//! World coordinates are carried as fixed-point integers in thousandths
//! of a world unit ("milli-units"), so that all geometry and motion
//! arithmetic is exact and machine-checked.

pub mod client;
pub mod codec;
pub mod grid;
pub mod map;
pub mod messages;
pub mod pack;
pub mod player;
pub mod utils;

pub use client::{Client, Game, GameConnectInfo};
pub use codec::{Codec, ProtocolDecodeError};
pub use map::{GameMap, MapParseError, RawMap, RawMapConfig, RawMapObject};
pub use messages::{MessageBuilder, MessageError, MessageParser, MsgValue, PlayerState, TickFlags};
pub use player::{Account, Action, PathError, Player, PlayerBuilder, Snapshot, StateError};
pub use utils::{cell_to_position, position_to_cell, Vec3, AABB};
