//! The providers that a chat can be held with.

pub mod provider_adapter;
