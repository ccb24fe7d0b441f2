//! Codecs and limits for RPC messages: the compression of gRPC messages and its
//! negotiation, the choice of Thrift protocols, and a limit on HTTP request bodies.

pub mod backend;
pub mod body_limit;
pub mod buffer;
pub mod compression;
pub mod header;
pub mod laws;
pub mod text;
pub mod thrift;
pub mod wire;
