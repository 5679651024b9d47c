//! A message relay for multiplayer game rooms: clients create or join rooms
//! by code and the relay forwards their game actions to the other players.
pub mod text;
pub mod messages;
pub mod room;
pub mod config;
pub mod client;
pub mod laws;
