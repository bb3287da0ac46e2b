pub mod data_compress;
