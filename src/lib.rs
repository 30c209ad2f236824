//! The tunnel protocol of a QUIC proxy: the wire codecs of addresses,
//! commands and UDP headers, the server's authentication gate and dispatch,
//! the client's associations, and the reassembly and fragmentation of UDP
//! messages.
pub mod address;
pub mod auth;
pub mod buf;
pub mod client;
pub mod command;
pub mod connection;
pub mod error;
pub mod fragment;
pub mod session;
pub mod wire;

pub use address::Address;
pub use command::{Command, UdpHeader, TUIC_PROTOCOL_VERSION};
pub use error::Error;
