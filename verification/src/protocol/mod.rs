pub mod compression;
pub mod connection;
pub mod packets;
pub mod types;
