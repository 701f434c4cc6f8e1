//! A multiplexing proxy tunnel: framing, flow control, stream dispatch, event encryption,
//! protocol sniffing and configuration, each with a machine-checked contract.

pub mod buf;
pub mod codec;
pub mod mux;
pub mod cipher;
pub mod text;
pub mod parts;
pub mod rmux;
pub mod common;
pub mod proxy;
pub mod config;
pub mod app_config;
pub mod form;
pub mod admin;
pub mod init_dir;
pub mod wizard;
pub mod stat;
pub mod service;
pub mod tunnel_config;
pub mod channel;
