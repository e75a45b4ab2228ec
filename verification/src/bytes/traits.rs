//! The two halves of the codec, and what holds of a type that has both.

use crate::bytes::error::BytesError;
use vstd::prelude::*;

verus! {

/// Whether `len` is the bound `bound` of a type, as `max_size` returns it.
pub open spec fn bound_as_len(bound: Option<nat>, len: Option<usize>) -> bool {
    match len {
        Some(size) => bound == Some(size as nat),
        None => bound is None,
    }
}

/// A value that can be written as bytes.
///
/// An implementation that the verifier does not read need not say what its
/// encoding is: the spec functions then stand for values that nothing is
/// known of.
pub trait ToBytes: Sized {
    /// The bytes that stand for the value.
    open spec fn encoding(&self) -> Seq<u8> {
        vstd::pervasive::arbitrary()
    }

    /// A size that no encoding of a value of this type exceeds, if there is
    /// one that is known without a value.
    open spec fn size_bound() -> Option<nat> {
        vstd::pervasive::arbitrary()
    }

    /// Whether `len` is what `byte_len` reports for this value, in a type
    /// that works the report out from the value. A type that reports its
    /// bound for every value says `false`.
    open spec fn reports(&self, len: Option<usize>) -> bool {
        vstd::pervasive::arbitrary()
    }

    /// A size that no encoding of a value of this type exceeds, if there is
    /// one that is known without a value.
    fn max_size() -> (size: Option<usize>)
        ensures
            size is Some <==> Self::size_bound() is Some,
            size is Some ==> size.unwrap() == Self::size_bound().unwrap(),
            size is Some ==> forall|value: Self|
                (#[trigger] value.encoding()).len() <= size.unwrap(),
    ;

    /// Writes the encoding at the start of `buf` and returns its length.
    /// Fails, with `BufferTooSmall`, exactly when `buf` is shorter than the
    /// encoding; what `buf` then holds is not told.
    fn to_bytes(&self, buf: &mut [u8]) -> (res: Result<usize, BytesError>)
        ensures
            final(buf)@.len() == old(buf)@.len(),
            res is Ok <==> self.encoding().len() <= old(buf)@.len(),
            res is Ok ==> res.unwrap() == self.encoding().len() && final(buf)@ == self.encoding()
                + old(buf)@.skip(self.encoding().len() as int),
            res is Err ==> res.unwrap_err() is BufferTooSmall,
    ;

    /// A size that the encoding of this value does not exceed, if one is
    /// known without encoding: the bound of the type, unless the type works
    /// out a size from the value, which `reports` then tells.
    fn byte_len(&self) -> (len: Option<usize>)
        ensures
            len is Some ==> self.encoding().len() <= len.unwrap(),
            bound_as_len(Self::size_bound(), len) || self.reports(len),
    {
        Self::max_size()
    }
}

/// Whether `len` is what `byte_len` returns for `value`: the bound of its
/// type, or what the value reports for itself.
pub open spec fn reported<T: ToBytes>(value: T, len: Option<usize>) -> bool {
    bound_as_len(T::size_bound(), len) || value.reports(len)
}

/// A value that can be read from bytes.
pub trait FromBytes: Sized {
    /// How reading a value from the start of `bytes` ends: with the number
    /// of bytes that the value takes, or with an error.
    open spec fn outcome(bytes: Seq<u8>) -> Result<nat, BytesError> {
        vstd::pervasive::arbitrary()
    }

    /// Whether `value` is what the start of `bytes` stands for.
    open spec fn decodes(bytes: Seq<u8>, value: Self) -> bool {
        vstd::pervasive::arbitrary()
    }

    /// Reads a value from the start of `buf`. Returns the value and the
    /// number of bytes that it took.
    fn from_bytes(buf: &[u8]) -> (res: Result<(Self, usize), BytesError>)
        ensures
            match res {
                Ok((value, used)) => Self::outcome(buf@) == Ok::<nat, BytesError>(used as nat)
                    && Self::decodes(buf@, value) && used <= buf@.len(),
                Err(error) => Self::outcome(buf@) == Err::<nat, BytesError>(error),
            },
    ;
}

/// A type whose values can be written and read back.
pub trait Codec: ToBytes + FromBytes {
    /// What was written is read back: from the encoding of a value, whatever
    /// follows it, the value is read, and the encoding is what it takes.
    proof fn lemma_roundtrip(&self, rest: Seq<u8>)
        ensures
            Self::outcome(self.encoding() + rest) == Ok::<nat, BytesError>(self.encoding().len()),
            Self::decodes(self.encoding() + rest, *self),
    ;
}

/// The largest buffer that `to_vec` tries.
pub open spec fn largest_buffer() -> nat {
    usize::MAX as nat
}

/// Encoding into a vector of the right length: every value that can be
/// written has it.
pub trait ToBytesExt: ToBytes {
    /// The encoding of the value, as a vector. Fails, with
    /// `BufferTooSmall`, exactly when the encoding is longer than a buffer
    /// can be.
    fn to_vec(&self) -> (res: Result<Vec<u8>, BytesError>)
        ensures
            res is Ok <==> self.encoding().len() <= largest_buffer(),
            res is Ok ==> res.unwrap()@ == self.encoding(),
            res is Err ==> res.unwrap_err() is BufferTooSmall,
    ;
}

impl<T: ToBytes> ToBytesExt for T {
    fn to_vec(&self) -> (res: Result<Vec<u8>, BytesError>) {
        let mut size: usize = match self.byte_len() {
            Some(len) => len,
            None => 256,
        };
        loop
            decreases usize::MAX - size,
        {
            let mut buf: Vec<u8> = Vec::new();
            buf.resize(size, 0u8);
            let written = self.to_bytes(buf.as_mut_slice());
            match written {
                Ok(len) => {
                    buf.truncate(len);
                    proof {
                        assert(buf@ =~= self.encoding());
                    }
                    return Ok(buf);
                },
                Err(error) => {
                    if size == usize::MAX {
                        return Err(error);
                    }
                    size = if size > usize::MAX / 2 {
                        usize::MAX
                    } else if size == 0 {
                        1
                    } else {
                        size * 2
                    };
                },
            }
        }
    }
}

/// Reads a value from the start of `bytes` and lets the number of bytes
/// that it took go.
pub fn decode_value<T: FromBytes>(bytes: &[u8]) -> (res: Result<T, BytesError>)
    ensures
        match res {
            Ok(value) => T::outcome(bytes@) is Ok && T::decodes(bytes@, value),
            Err(error) => T::outcome(bytes@) == Err::<nat, BytesError>(error),
        },
{
    match T::from_bytes(bytes) {
        Ok((value, _)) => Ok(value),
        Err(error) => Err(error),
    }
}

} // verus!
