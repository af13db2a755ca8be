//! The kRPC protocol.
pub mod numbers;
pub mod schema;
