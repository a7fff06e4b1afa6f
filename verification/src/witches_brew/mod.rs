pub mod rules;
pub mod protocol;
pub mod game;
pub mod messages;
pub mod cache;
pub mod player;
pub mod turn_input;
pub mod first_league;
pub mod random_player;
pub mod planner;
pub mod duel;
pub mod shortest_path;
pub mod state_graph;
pub mod view;
