//! The backend: identity, queue, results and ratings.
//!
//! The only process that holds the platform's API key. The desktop client and
//! the dedicated game server both go through here; neither of them ever sees the
//! key, which is the whole point of the shape.

pub mod auth;
pub mod config;
pub mod error;
pub mod gameflow;
pub mod routes;
