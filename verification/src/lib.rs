//! The whole of a two player maze chase: the simulation both ends of the wire
//! run, the wire protocol, and the decisions of the game server, the backend and
//! the desktop client.

pub mod agreement;
pub mod backend;
pub mod client;
pub mod difficulty;
pub mod ghosts;
pub mod grid;
pub mod maze;
pub mod movement;
pub mod pellets;
pub mod protocol;
pub mod reach;
pub mod rules;
pub mod score;
pub mod server;
pub mod sim;
pub mod sim_laws;
pub mod single;
pub mod text;
pub mod tokens;
pub mod transport;
pub mod wire;
