//! Wrappers that carry an encoded value through other formats: as bytes,
//! and as base64 text.

use crate::bytes::error::BytesError;
use crate::bytes::traits::{decode_value, largest_buffer, FromBytes, ToBytes, ToBytesExt};
use base64::Engine;
use vstd::prelude::*;

verus! {

/// The text that the standard base64 alphabet, with padding, gives for
/// `bytes`.
pub uninterp spec fn base64_text(bytes: Seq<u8>) -> Seq<char>;

/// The bytes that `text` stands for in the standard base64 alphabet with
/// padding, or `None` where it is no such text.
pub uninterp spec fn base64_bytes(text: Seq<char>) -> Option<Seq<u8>>;

/// Whether the base64 text of `len` bytes is no longer than a buffer can be.
pub open spec fn base64_fits(len: nat) -> bool {
    len / 3 * 4 + 4 <= usize::MAX
}

/// `Engine::encode` of the crate base64 on its `STANDARD` engine: the text
/// of `bytes`. The call panics where the length of the text overflows, which
/// the precondition leaves out.
#[verifier::external_body]
fn base64_encode(bytes: &[u8]) -> (text: String)
    requires
        base64_fits(bytes@.len()),
    ensures
        text@ == base64_text(bytes@),
{
    base64::engine::general_purpose::STANDARD.encode(bytes)
}

/// `Engine::decode` of the crate base64 on its `STANDARD` engine: the bytes
/// that `text` stands for, or `None` where the crate reports an error.
#[verifier::external_body]
fn base64_decode(text: &str) -> (bytes: Option<Vec<u8>>)
    ensures
        match bytes {
            Some(found) => base64_bytes(text@) == Some(found@),
            None => base64_bytes(text@) is None,
        },
{
    base64::engine::general_purpose::STANDARD.decode(text).ok()
}

/// An encoded value as the bytes of its encoding.
#[derive(Debug)]
pub struct BytecastRkyv {
    bytes: Vec<u8>,
}

impl BytecastRkyv {
    /// The bytes that are carried.
    pub closed spec fn payload(&self) -> Seq<u8> {
        self.bytes@
    }

    /// Wraps the encoding of `value`. Fails, with `BufferTooSmall`, exactly
    /// when the encoding is longer than a buffer can be.
    pub fn encode<T: ToBytes>(value: &T) -> (res: Result<Self, BytesError>)
        ensures
            res is Ok <==> value.encoding().len() <= largest_buffer(),
            res is Ok ==> res.unwrap().payload() == value.encoding(),
            res is Err ==> res.unwrap_err() is BufferTooSmall,
    {
        match value.to_vec() {
            Ok(bytes) => Ok(BytecastRkyv { bytes }),
            Err(error) => Err(error),
        }
    }

    /// The value that the carried bytes stand for.
    pub fn decode<T: FromBytes>(&self) -> (res: Result<T, BytesError>)
        ensures
            match res {
                Ok(value) => T::outcome(self.payload()) is Ok && T::decodes(self.payload(), value),
                Err(error) => T::outcome(self.payload()) == Err::<nat, BytesError>(error),
            },
    {
        decode_value(self.bytes.as_slice())
    }
}

/// An encoded value as base64 text, for formats that carry text.
#[derive(Debug)]
pub struct BytecastFacet {
    data: String,
}

impl BytecastFacet {
    /// The text that is carried.
    pub closed spec fn text(&self) -> Seq<char> {
        self.data@
    }

    /// A wrapper around `data`, whatever it holds.
    pub fn from_text(data: String) -> (wrapped: Self)
        ensures
            wrapped.text() == data@,
    {
        BytecastFacet { data }
    }

    /// The text that is carried.
    pub fn as_text(&self) -> (data: &str)
        ensures
            data@ == self.text(),
    {
        self.data.as_str()
    }

    /// Wraps the base64 text of the encoding of `value`. Fails, with
    /// `BufferTooSmall`, exactly when the encoding or its text is longer
    /// than a buffer can be.
    pub fn encode<T: ToBytes>(value: &T) -> (res: Result<Self, BytesError>)
        ensures
            res is Ok <==> value.encoding().len() <= largest_buffer() && base64_fits(
                value.encoding().len(),
            ),
            res is Ok ==> res.unwrap().text() == base64_text(value.encoding()),
            res is Err ==> res.unwrap_err() is BufferTooSmall,
    {
        let bytes = match value.to_vec() {
            Ok(bytes) => bytes,
            Err(error) => {
                return Err(error);
            },
        };
        let len = bytes.len();
        if len / 3 > (usize::MAX - 4) / 4 {
            return Err(BytesError::BufferTooSmall { needed: usize::MAX, available: len });
        }
        let data = base64_encode(bytes.as_slice());
        Ok(BytecastFacet { data })
    }

    /// The value that the carried text stands for. Fails with `InvalidData`
    /// where the text is not base64, and as the codec of `T` fails where the
    /// bytes do not stand for a value.
    pub fn decode<T: FromBytes>(&self) -> (res: Result<T, BytesError>)
        ensures
            match base64_bytes(self.text()) {
                None => res == Err::<T, BytesError>(
                    BytesError::InvalidData { message: "invalid base64" },
                ),
                Some(bytes) => match res {
                    Ok(value) => T::outcome(bytes) is Ok && T::decodes(bytes, value),
                    Err(error) => T::outcome(bytes) == Err::<nat, BytesError>(error),
                },
            },
    {
        match base64_decode(self.data.as_str()) {
            None => Err(BytesError::InvalidData { message: "invalid base64" }),
            Some(bytes) => decode_value(bytes.as_slice()),
        }
    }
}

} // verus!
