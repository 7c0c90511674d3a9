//! Service data objects: access to a remote object dictionary.

pub mod blocks;
pub mod client;
pub mod client_laws;
pub mod config;
pub mod conversation;
pub mod driver;
pub mod protocol;
pub mod server;
pub mod wire_laws;

pub use config::{SdoServerConfig, SdoServerConfigSource};
pub use client::{SdoClient, SdoClientResult};
pub use driver::{SdoDriver, SdoError};
pub use protocol::AbortCode;
pub use server::SdoServer;
