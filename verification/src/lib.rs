//! A bounded mail filter.

pub mod bounded_bytes;
pub mod commands;
pub mod config;
pub mod configuration;
pub mod delivery;
pub mod delivery_runtime;
pub mod environment;
pub mod eval;
pub mod message;
pub mod process_laws;
pub mod publication;
pub mod runtime;
pub mod runtime_laws;
pub mod text;
