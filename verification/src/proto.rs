//! The messages of Riak's Protocol Buffers API, with their wire encoding.
//!
//! Each message has a value type (its name with `View`), stated over
//! sequences; a spec function for its bytes, fields in the order of their
//! tags; a spec function that says what each field read from the wire does
//! to it and one that reads a whole buffer, as `prost` does; and a proof
//! that its bytes read back as itself. Executable writers exist for the
//! messages this library sends, executable readers for those it receives.
pub mod dt;
pub mod dt_bytes;
pub mod kv;
pub mod yz;
