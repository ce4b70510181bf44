use vstd::prelude::*;

verus! {

/// The byte that ends every message a client sends.
pub const MESSAGE_DELIMITER: u8 = 10u8;

/// How many queued outgoing messages an entity moves into its write buffer
/// in one poll before it yields to the executor.
pub const MESSAGE_BATCH_SIZE: usize = 32usize;

/// How many times per second the simulation loop ticks.
pub const SERVER_FPS: u32 = 60u32;

} // verus!
