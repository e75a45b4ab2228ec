//! The codec as one value that serializes and deserializes.

use crate::bytes::error::BytesError;
use crate::bytes::traits::{decode_value, largest_buffer, FromBytes, ToBytes, ToBytesExt};
use vstd::prelude::*;

verus! {

/// The byte codec as a serializer: values to vectors of bytes and back.
#[derive(Debug, Clone, Copy)]
pub struct ByteSerializer;

impl Default for ByteSerializer {
    fn default() -> (serializer: Self) {
        ByteSerializer
    }
}

impl ByteSerializer {
    /// The serializer.
    pub fn new() -> (serializer: Self) {
        ByteSerializer
    }

    /// The encoding of `value`, as a vector. Fails, with `BufferTooSmall`,
    /// exactly when the encoding is longer than a buffer can be.
    pub fn serialize<T: ToBytes>(&self, value: &T) -> (res: Result<Vec<u8>, BytesError>)
        ensures
            res is Ok <==> value.encoding().len() <= largest_buffer(),
            res is Ok ==> res.unwrap()@ == value.encoding(),
            res is Err ==> res.unwrap_err() is BufferTooSmall,
    {
        value.to_vec()
    }

    /// The value that the start of `bytes` stands for.
    pub fn deserialize<T: FromBytes>(&self, bytes: &[u8]) -> (res: Result<T, BytesError>)
        ensures
            match res {
                Ok(value) => T::outcome(bytes@) is Ok && T::decodes(bytes@, value),
                Err(error) => T::outcome(bytes@) == Err::<nat, BytesError>(error),
            },
    {
        decode_value(bytes)
    }
}

} // verus!
