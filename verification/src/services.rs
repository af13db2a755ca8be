//! Handles to objects on the server.
pub mod krpc;
