//! A small keyed-store server: request parsing, response framing and the
//! store operations behind each method, with their contracts.

pub mod assoc;
pub mod config;
pub mod handlers;
pub mod headers;
pub mod laws;
pub mod request;
pub mod response;
pub mod storage;
pub mod text;
