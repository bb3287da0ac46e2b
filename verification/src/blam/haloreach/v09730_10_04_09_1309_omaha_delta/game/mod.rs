pub mod game_engine_loadout_traits;
pub mod megalogamengine;
