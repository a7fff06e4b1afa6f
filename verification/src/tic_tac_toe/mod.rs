pub mod board;
pub mod game;
pub mod player;
pub mod squares;
pub mod view;
