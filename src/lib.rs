//! Encoding and decoding of Bitcoin peer-to-peer network messages.
//!
//! Every wire type has a mathematical encoding (`Encode::spec_encode`) and a
//! reading of bytes (`Decode::spec_decode`); the executable codec is proved
//! to follow them, and each type's round trip is proved from them.

pub mod data;
pub mod encode;
pub mod header;
pub mod inventory;
pub mod network;
pub mod peer;
pub mod varint;
pub mod version;

pub use data::{EmptyPayload, Message, MessagePayload};
pub use encode::{Decode, Encode, Error};
pub use header::{Checksum, Command, Magic, MessageHeader};
pub use inventory::Inventory;
pub use network::{Address, IpAddress, NetAddress, Service, ServicesList, TimestampedNetAddress};
pub use varint::VariableInteger;
pub use version::VersionMessage;
