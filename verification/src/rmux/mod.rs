//! The encrypted multiplexer: events, their encryption, and the sessions of a channel.

pub mod crypto;
pub mod event;
pub mod message;
pub mod stream;
pub mod session;
pub mod channel;
