//! A unary greeting service: its two messages, their wire codec, the service
//! implementation and the lifecycle of the server that hosts it.

pub mod codec;
pub mod log;
pub mod message;
pub mod runtime;
pub mod service;
pub mod varint;
pub mod wire;
