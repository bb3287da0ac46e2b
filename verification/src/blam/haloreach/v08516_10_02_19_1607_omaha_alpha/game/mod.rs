pub mod game_variant;
