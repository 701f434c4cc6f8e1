//! The protocols that a local connection may speak.

pub mod tls;
pub mod http;
pub mod local;
pub mod socks5;
