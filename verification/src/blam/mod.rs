pub mod haloreach_mcc;
pub mod halo3;
pub mod haloreach;
pub mod common;
