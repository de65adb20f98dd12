//! SOVD gateway communication and UDS-to-SOVD mapping.

pub mod client;
pub mod diag_handler;
pub mod laws;
pub mod mapper;
pub mod schema;

pub use client::SovdClient;
pub use diag_handler::SovdDiagHandler;
pub use mapper::SovdMapper;
pub use schema::DataResponse;
