//! Typed configuration model for a home-network host inventory used to issue
//! Wake-on-LAN requests: validated hardware addresses, host references,
//! WoL passwords, and a strict document decoder that aggregates named
//! networks and servers while rejecting duplicate names.

pub mod config;
pub mod error;
pub mod hardware_address;
pub mod host;
pub mod ipv4;
pub mod text;
pub mod wol;

pub use config::Config;
pub use error::Error;
pub use error::MacParseError;
pub use hardware_address::HardwareAddress;
pub use host::Host;
pub use ipv4::Ipv4;
