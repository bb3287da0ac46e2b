pub mod scenario_map_variant;
pub mod scenario_map_variant_h4;
pub mod saved_game_files;
pub mod scenario_map_variant_h2a;
pub mod variant_objects;
pub mod object_properties;
pub mod metadata_h4;
