//! The client-facing surface: filter compilation, update messages, the
//! per-client streaming session, and the API error shape.

pub mod error;
pub mod filter;
pub mod message;
pub mod session;
pub mod types;
