//! The stream multiplexer.

pub mod event;
pub mod message;
pub mod stream;
pub mod connection;
pub mod transfer;
pub mod crypto;
pub mod pool;
pub mod tcp;
pub mod relay;
pub mod common;
pub mod session;
pub mod processor;
pub mod frame;
pub mod manager;
pub mod conn;

pub use connection::Connection;
pub use connection::INITIAL_STREAM_WINDOW;
pub use connection::MAX_STREAM_WINDOW;
pub use connection::MIN_STREAM_WINDOW;
pub use connection::Mode;
pub use connection::PingError;
pub use stream::MuxStream;
