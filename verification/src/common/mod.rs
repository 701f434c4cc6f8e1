//! Parsers and helpers that the proxies share.

pub mod client_hello;
pub mod http;
pub mod io;
pub mod ip;
pub mod utils;
pub mod future;
pub mod timeout_reader;
