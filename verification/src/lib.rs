pub mod assoc;
pub mod clock;
pub mod codec;
pub mod connection;
pub mod errors;
pub mod gaze;
pub mod mode;
pub mod operation;
pub mod protocol;
pub mod registry;
pub mod router;
pub mod schema;
pub mod selection;
pub mod storage;
