//! A proxy between UDS diagnostic tools, which speak DoIP, and a SOVD gateway.
//!
//! - [`doip`]: the DoIP transport, from received bytes to answered frames.
//! - [`service_resolver`]: which diagnostic service a request asks for, and how
//!   its response is encoded.
//! - [`sovd`]: what is asked of the gateway, and what its replies mean.
//! - [`config`]: defaults, configuration file, command line and validation.
//! - [`error`]: errors and UDS negative response codes.
//! - [`json`], [`text`], [`number`], [`double`]: values and their texts.
//!
//! What each layer promises for all inputs is stated and proved in
//! [`doip::laws`], [`service_resolver::laws`], [`service_resolver::response_laws`],
//! [`sovd::laws`] and [`config_laws`], and at the end of the modules on values.

pub mod config;
pub mod config_laws;
pub mod doip;
pub mod double;
pub mod error;
pub mod json;
pub mod number;
pub mod service_resolver;
pub mod sovd;
pub mod text;

pub use config::Config;
pub use error::{ProxyError, Result};
pub use service_resolver::{
    DidResolver, MetadataProvider, ResolvedService, ResponseEncoder, ServiceResolver, ServiceType,
};
