pub mod cache;
pub mod game;
pub mod messages;
pub mod protocol;
pub mod rules;
pub mod player;
pub mod solo;
pub mod view;
