pub mod bitstream;
pub mod strings;
pub mod bytes;
