pub use crate::connection::ConnectionStatus;
