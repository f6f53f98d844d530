//! The ping server: a state machine without I/O that takes in the raw record
//! stream and gives out canvas events.

pub mod message;
pub mod server;
pub mod stream;

pub use server::{PingServer, PingServerError};
