//! The decisions of a chained proxy: how gRPC messages carry a byte stream, how an HTTP inbound
//! answers its requests, and what a relay copies where.
//!
//! Nothing here waits or touches a socket. A function that has to alternate with the network
//! takes the event that just happened and answers with a [`step::Step`]: what to do next, or
//! what to return.
pub mod buffers;
pub mod common;
pub mod proxy;
pub mod step;
pub mod varint;
pub mod web;
