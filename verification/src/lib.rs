use vstd::prelude::*;

pub mod cards;
pub mod player;
pub mod names;
pub mod game_state;
pub mod messages;
pub mod text;
pub mod game;
pub mod ids;
pub mod lobby;
pub mod connection;
pub mod client;
pub mod canvas;
