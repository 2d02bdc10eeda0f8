//! The runtime of a voxel game server: the wire codec with its frames and
//! packets, the state machine of a connection, the world with its chunks
//! and entities, and the books of the sandbox in which extensions run.
//! Beside it stand the lock file, the cache rules and the addresses of the
//! asset service, and the store's schema of the launcher tool.
//!
//! Floating-point numbers are carried as their bit patterns throughout, and
//! 128-bit identifiers as `u128`.

pub mod api;
pub mod bunja;
pub mod lua;
pub mod protocol;
pub mod registry;
pub mod sandbox;
pub mod server;
pub mod topline;
pub mod world;
