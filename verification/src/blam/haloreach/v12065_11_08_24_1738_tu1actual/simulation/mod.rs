pub mod simulation_encoding;
