//! The DoIP transport layer (ISO 13400-2).
//!
//! A [`DoIpServer`] admits connections, and a [`ConnectionHandler`] for each of
//! them turns received bytes into UDS requests and their answers into frames.

pub mod handler;
pub mod laws;
pub mod message;
pub mod server;
pub mod session;
pub mod wire;

pub use handler::ConnectionHandler;
pub use message::DoIpMessage;
pub use server::DoIpServer;
