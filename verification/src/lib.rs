//! A Riak client library: request and response types for Riak's Protocol
//! Buffers API, the wire encoding of its messages, and the connection and
//! stream state that a client keeps.

pub mod bucket;
pub mod bytes;
pub mod client;
pub mod codes;
pub mod connection;
pub mod data_type;
pub mod errors;
pub mod object;
pub mod pool;
pub mod preflist;
pub mod proto;
pub mod secondary_index;
pub mod stream;
pub mod wire;
pub mod yokozuna;
