pub mod command;
pub mod eater;
pub mod message;
pub mod out;
pub mod reader;
pub mod types;
pub mod writer;
