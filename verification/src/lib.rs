//! An authentication gateway core: canonical auth messages, the JSON codec
//! used on the HTTP/2 REST surface, request routing, configuration
//! resolution, and the per-stream bookkeeping of the HTTP/3 surface.
//!
//! Transport I/O (TLS termination, sockets, the upstream RPC channel) lives
//! outside this crate; everything here is pure logic over plain values.

pub mod auth;
pub mod codec;
pub mod config;
pub mod errors;
pub mod gateway;
pub mod hello;
pub mod http;
pub mod http3;
pub mod json;
pub mod logger;
pub mod text;
