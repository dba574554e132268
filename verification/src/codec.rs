//! The codec pair the transport consumes: a stateless encoder and decoder
//! bound to a (request, response) type pair, and the factory that hands out
//! fresh instances per call.
//!
//! Round trip: the encoder's postcondition pins the bytes it appends to be
//! exactly the wire image of the value, and the decoder's postcondition
//! states that the wire image of any value decodes back to that value. So
//! decoding what was encoded always returns a structurally equal value.

use core::marker::PhantomData;
use vstd::prelude::*;
use crate::model::{CodecError, MongotCursorBatch, VectorSearchCommand, CommandView, BatchView,
    command_wf};
use crate::wire::{command_bytes, command_fits, batch_bytes, batch_fits};
use crate::enc::{encode_command, encode_batch};
use crate::dec::{decode_command, decode_batch};

verus! {

/// Serializes values of type `T` into document bytes. It holds no state: the
/// outcome of a call depends on the value and the buffer alone, and the
/// encoder itself never changes.
pub struct BsonEncoder<T>(pub PhantomData<T>);

/// Deserializes document bytes into values of type `U`. Stateless, like the
/// encoder.
pub struct BsonDecoder<U>(pub PhantomData<U>);

impl<T> BsonEncoder<T> {
    /// A fresh encoder.
    pub fn new() -> (r: BsonEncoder<T>) {
        BsonEncoder(PhantomData)
    }
}

impl<U> BsonDecoder<U> {
    /// A fresh decoder.
    pub fn new() -> (r: BsonDecoder<U>) {
        BsonDecoder(PhantomData)
    }
}

impl BsonEncoder<VectorSearchCommand> {
    /// Appends the document bytes of one request to the outbound buffer,
    /// unframed. Fails, leaving the buffer untouched, exactly when the value
    /// cannot be written: a collection identifier that is not 16 bytes, or a
    /// document too large for its 32-bit length prefix.
    pub fn encode(&mut self, item: &VectorSearchCommand, dst: &mut Vec<u8>) -> (r: Result<
        (),
        CodecError,
    >)
        ensures
            *final(self) == *old(self),
            r is Ok ==> command_wf(item@) && command_fits(item@) && final(dst)@ == old(dst)@
                + command_bytes(item@),
            r matches Err(e) ==> final(dst)@ == old(dst)@ && e is SerializationFailure && !(
            command_wf(item@) && command_fits(item@)),
    {
        encode_command(item, dst)
    }
}

impl BsonEncoder<MongotCursorBatch> {
    /// Appends the document bytes of one response to the outbound buffer,
    /// unframed. Fails, leaving the buffer untouched, exactly when the
    /// document would overflow its 32-bit length prefix.
    pub fn encode(&mut self, item: &MongotCursorBatch, dst: &mut Vec<u8>) -> (r: Result<
        (),
        CodecError,
    >)
        ensures
            *final(self) == *old(self),
            r is Ok ==> batch_fits(item@) && final(dst)@ == old(dst)@ + batch_bytes(item@),
            r matches Err(e) ==> final(dst)@ == old(dst)@ && e is SerializationFailure
                && !batch_fits(item@),
    {
        encode_batch(item, dst)
    }
}

impl BsonDecoder<VectorSearchCommand> {
    /// Reads one request document from the inbound bytes. An empty buffer
    /// yields `Ok(None)`: wait for more data. Otherwise the bytes either are
    /// exactly the wire image of one well-formed request, which is returned,
    /// or the call fails.
    pub fn decode(&mut self, src: &[u8]) -> (r: Result<Option<VectorSearchCommand>, CodecError>)
        ensures
            *final(self) == *old(self),
            (r == Ok::<Option<VectorSearchCommand>, CodecError>(None)) <==> src@.len() == 0,
            r matches Ok(Some(c)) ==> command_wf(c@) && command_fits(c@) && src@
                == command_bytes(c@),
            forall|cv: CommandView|
                command_wf(cv) && command_fits(cv) && src@ == #[trigger] command_bytes(cv) ==> (
                r matches Ok(Some(c)) && c@ == cv),
            r matches Err(e) ==> e is DeserializationFailure,
    {
        decode_command(src)
    }
}

impl BsonDecoder<MongotCursorBatch> {
    /// Reads one response document from the inbound bytes. An empty buffer
    /// yields `Ok(None)`: wait for more data. Otherwise the bytes either are
    /// exactly the wire image of one response, which is returned with absent
    /// optional fields absent, or the call fails.
    pub fn decode(&mut self, src: &[u8]) -> (r: Result<Option<MongotCursorBatch>, CodecError>)
        ensures
            *final(self) == *old(self),
            (r == Ok::<Option<MongotCursorBatch>, CodecError>(None)) <==> src@.len() == 0,
            r matches Ok(Some(b)) ==> batch_fits(b@) && src@ == batch_bytes(b@),
            forall|bv: BatchView|
                batch_fits(bv) && src@ == #[trigger] batch_bytes(bv) ==> (r matches Ok(Some(b))
                    && b@ == bv),
            r matches Err(e) ==> e is DeserializationFailure,
    {
        decode_batch(src)
    }
}

/// Binds one encoder and one decoder to the (request, response) pair of a
/// single method. Construction takes nothing; every call gets a fresh,
/// independent encoder or decoder.
pub struct BsonCodec<T, U>(pub PhantomData<(T, U)>);

impl<T, U> Default for BsonCodec<T, U> {
    fn default() -> (r: Self) {
        BsonCodec(PhantomData)
    }
}

impl<T, U> BsonCodec<T, U> {
    /// A fresh encoder for the request type.
    pub fn encoder(&mut self) -> (r: BsonEncoder<T>) {
        BsonEncoder(PhantomData)
    }

    /// A fresh decoder for the response type.
    pub fn decoder(&mut self) -> (r: BsonDecoder<U>) {
        BsonDecoder(PhantomData)
    }
}

} // verus!
