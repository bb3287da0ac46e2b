pub mod saved_game_files;
