pub mod chunk;
pub mod entity;
pub mod manager;
