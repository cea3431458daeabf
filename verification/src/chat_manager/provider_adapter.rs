//! One adapter for each provider.

pub mod lettuce_engine;
