//! A stateless, type-bound codec pair that carries the two search documents
//! of a remote search protocol over a byte-framed transport: an encoder that
//! writes a typed value as one self-describing binary document, and a decoder
//! that reads one such document back, honoring the transport's
//! partial-availability contract.

pub mod model;
pub mod wire;
pub mod enc;
pub mod dec;
pub mod codec;
