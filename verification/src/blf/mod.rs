pub mod chunks;
