//! The settings that the server starts with.
use vstd::prelude::*;

verus! {

/// Server settings: the address to listen on, and whether responses are to
/// be compressed (read but not acted on).
#[derive(Clone, Debug)]
pub struct Config {
    pub gzip_response: bool,
    pub server: String,
}

} // verus!
