pub mod card;
mod chance;
pub mod game;
pub mod shape;
pub mod text;
pub mod video;
pub mod laws;
pub mod lobby;
pub mod player;
pub mod rules;
pub mod session;
