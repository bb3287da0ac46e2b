pub mod game_engine_survival;
