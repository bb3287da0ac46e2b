pub mod integer_math;
