//! What the client of the engine's HTTP interface computes around its
//! requests: addresses, headers, and the reading of a reply.

pub mod commands;
pub mod types;
