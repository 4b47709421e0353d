//! Deterministic rollback-simulation core for a two-player arena game.
//!
//! Positions and velocities are fixed-point integers (thousandths of a world
//! unit) so that every peer computes bit-identical states. The online
//! session predicts the remote player's input, rolls back and replays frames
//! when a prediction proves wrong, bounds how far it runs ahead of the
//! confirmed frame, and keeps per-frame checksums for desync detection.

pub mod checksum;
pub mod input;
pub mod mode;
pub mod session;
pub mod world;

pub use checksum::{checksum, checksums_match};
pub use input::{decode, encode, Input, Intent, RawControls};
pub use mode::{setup_round, AppState, LocalSession, RoundSession};
pub use session::{ChecksumCheck, GGRSConfig, Session, SessionError, SessionStatus, TickOutcome};
pub use world::{step, Entity, World};
