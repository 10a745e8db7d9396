//! Verified core of a small HTTP/1.1 server with WebSocket support.

pub mod buffer;
pub mod connection;
pub mod error;
pub mod exchange;
pub mod frame;
pub mod handshake;
pub mod laws;
pub mod reading;
pub mod request;
pub mod response;
pub mod service;
pub mod session;
pub mod text;
pub mod transfer;

pub use frame::WsContext;
pub use request::Request;
pub use response::Response;
pub use service::{HttpServer, HttpService};
