//! The dedicated game server: who sits where, the fixed tick loop, and the
//! report at the end.
//!
//! It never holds the platform's API key. It never trusts a client.

pub mod config;
pub mod report;
pub mod roster;
pub mod session;
