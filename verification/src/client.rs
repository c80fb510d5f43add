//! The desktop client: who the player is, what it predicts and draws between
//! snapshots, and what every screen and every reply leads to.

pub mod backend;
pub mod identity;
pub mod net;
pub mod predict;
pub mod render;
pub mod screen;
pub mod ui;
