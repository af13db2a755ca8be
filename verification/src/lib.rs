//! A verified client library for the kRPC protocol.
pub mod client;
pub mod codec;
pub mod construction;
mod error;
pub mod expr;
pub mod krpc;
pub mod meaning;
pub mod message;
pub mod program;
pub mod round_trip;
mod sealed;
pub mod services;
pub mod stream;
pub mod wire;

pub use client::{Client, ClientRef, ClientView};
pub use error::{DecodeFault, Error, Fault, Malformed, Result};
