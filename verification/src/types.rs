pub mod avatars;
pub mod channel;
pub mod client;
pub mod config;
pub mod session;
pub mod entity;
