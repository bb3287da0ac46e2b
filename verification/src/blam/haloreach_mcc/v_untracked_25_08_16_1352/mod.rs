pub mod cache_compression;
pub mod game;
pub mod saved_games;
pub mod forge_palette;
pub mod forge_palette_h2a;
pub mod forge_palette_h4;
pub mod forge_stringids;
pub mod friendly_tags;
