use vstd::prelude::*;

verus! {

/// Configuration handed to the engine when it starts.
pub struct Config {
    pub master_key: String,
    pub tcp_port: i32,
}

} // verus!
