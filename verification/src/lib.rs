//! The engine behind a small live-view toy: a shared session of connected
//! entities, the avatars drawn for them, and the framing of the messages
//! that clients send over their sockets.
pub mod bytes_buf;
pub mod constants;
pub mod json;
pub mod keyed;
pub mod random;
pub mod text;
pub mod types;
