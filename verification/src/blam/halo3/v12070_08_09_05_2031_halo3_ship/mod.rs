pub mod forge_palette;
