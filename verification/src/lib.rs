//! Game referees and game logic for turn-based bot competitions
//! (ultimate tic-tac-toe, a potion brewing game and a forest growing game),
//! together with the bounded vector and the state graph they are built on.

pub mod game;
pub mod graph;
pub mod random;
pub mod simulator;
pub mod stack_vector;
pub mod text;
pub mod tic_tac_toe;
pub mod witches_brew;
pub mod wood_spirit;
pub mod record;
