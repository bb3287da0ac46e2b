pub mod v09730_10_04_09_1309_omaha_delta;
pub mod v12065_11_08_24_1738_tu1actual;
pub mod v08516_10_02_19_1607_omaha_alpha;
