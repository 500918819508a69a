//! Verified core of a multiplayer liar's-dice engine.
//!
//! The crate covers the value types (dice, hands, commitments, bids), the
//! commit-reveal engine, the deterministic dice roller, the ELO rating
//! engine, the matchmaking queue, the game-session state machine and the
//! leaderboard aggregator.  Hashing and pseudo-random generation are
//! delegated to outside crates through small trusted wrappers; everything
//! else is verified.

pub mod crypto;
pub mod dice;
pub mod game;
pub mod leaderboard;
pub mod management;
pub mod matchmaking;
pub mod player;
pub mod random;
