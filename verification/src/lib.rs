#![allow(non_camel_case_types)]

//! Library for the Blam! engine's BLF file family: bit-packed game and map
//! variant encodings, Forge palette resolution, cache-file section
//! decompression and the title-storage file layout.

pub mod result;
pub mod io;
pub mod blam;
pub mod search;
pub mod text;
pub mod scan;
pub mod blf;
pub mod title_storage;
