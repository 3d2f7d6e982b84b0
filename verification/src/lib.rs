//! Rusqbin: a request-capture service library.
//!
//! Clients create a "bin", receive its identifier, and forward HTTP traffic
//! tagged with that identifier; the library records every tagged request so it
//! can be retrieved later, either as a full dump or as a summary count.

pub mod errors;
pub mod json;
pub mod models;
pub mod normalize;
pub mod server;
pub mod storage;
pub mod text;
