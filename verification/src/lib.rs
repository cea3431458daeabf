//! Theme resolution for a chat interface: colour parsing, contrast policy and
//! the composition of the style strings that the interface applies.

pub mod decimal;
pub mod text;
pub mod chat_appearance;
pub mod laws;
pub mod engine;
pub mod chat_manager;
