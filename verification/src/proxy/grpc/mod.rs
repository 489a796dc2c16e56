//! Proxy streams inside gRPC messages.
pub mod builder;
pub mod frame;
pub mod laws;
pub mod stream;
