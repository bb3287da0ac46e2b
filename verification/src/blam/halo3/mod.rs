pub mod v12070_08_09_05_2031_halo3_ship;
