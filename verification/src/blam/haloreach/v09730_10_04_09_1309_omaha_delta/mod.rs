pub mod saved_games;
pub mod game;
