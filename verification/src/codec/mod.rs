pub mod avro;
pub mod bytes;
pub mod number;
pub mod numbers;
pub mod registry;
