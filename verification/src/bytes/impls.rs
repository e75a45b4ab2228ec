//! The codec of the unsigned integers, `bool`, `()`, `Option` and `Vec`.
//!
//! Integers are written least significant byte first. A `usize` is written
//! as a `u64`, so that the bytes do not depend on the machine. An `Option`
//! is a byte, 0 or 1, and then the value if there is one. A `Vec` is the
//! number of its items, as a `u64`, and then the items.

use crate::bytes::error::BytesError;
use crate::bytes::traits::{Codec, FromBytes, ToBytes};
use vstd::bytes::{
    lemma_auto_spec_u16_to_from_le_bytes,
    lemma_auto_spec_u32_to_from_le_bytes,
    lemma_auto_spec_u64_to_from_le_bytes,
    spec_u16_from_le_bytes,
    spec_u16_to_le_bytes,
    spec_u32_from_le_bytes,
    spec_u32_to_le_bytes,
    spec_u64_from_le_bytes,
    spec_u64_to_le_bytes,
    u16_from_le_bytes,
    u16_to_le_bytes,
    u32_from_le_bytes,
    u32_to_le_bytes,
    u64_from_le_bytes,
    u64_to_le_bytes,
};
use vstd::prelude::*;

verus! {

/// Copies `bytes` to the start of `buf`.
pub fn write_prefix(buf: &mut [u8], bytes: &Vec<u8>)
    requires
        bytes@.len() <= old(buf)@.len(),
    ensures
        final(buf)@ == bytes@ + old(buf)@.skip(bytes@.len() as int),
{
    let count = bytes.len();
    let mut index: usize = 0;
    while index < count
        invariant
            index <= count,
            count == bytes@.len(),
            count <= buf@.len(),
            buf@.len() == old(buf)@.len(),
            buf@ == bytes@.take(index as int) + old(buf)@.skip(index as int),
        decreases count - index,
    {
        buf[index] = bytes[index];
        proof {
            assert(buf@ =~= bytes@.take(index + 1) + old(buf)@.skip(index + 1));
        }
        index += 1;
    }
    proof {
        assert(bytes@.take(count as int) == bytes@);
    }
}

/// Writes `value` into `buf` from `offset` on. The bytes before `offset`
/// stay as they are.
pub fn write_at<T: ToBytes>(value: &T, buf: &mut [u8], offset: usize) -> (res: Result<
    usize,
    BytesError,
>)
    requires
        offset <= old(buf)@.len(),
    ensures
        final(buf)@.len() == old(buf)@.len(),
        final(buf)@.take(offset as int) == old(buf)@.take(offset as int),
        res is Ok <==> offset + value.encoding().len() <= old(buf)@.len(),
        res is Ok ==> res.unwrap() == value.encoding().len() && final(buf)@ == old(buf)@.take(
            offset as int,
        ) + value.encoding() + old(buf)@.skip(offset + value.encoding().len()),
        res is Err ==> res.unwrap_err() is BufferTooSmall,
{
    let (head, tail) = buf.split_at_mut(offset);
    let res = value.to_bytes(tail);
    proof {
        assert(buf@.take(offset as int) =~= old(buf)@.take(offset as int));
        if res is Ok {
            assert(buf@ =~= old(buf)@.take(offset as int) + value.encoding() + old(buf)@.skip(
                offset + value.encoding().len(),
            ));
        }
    }
    res
}

/// The part of `buf` from `offset` on.
pub fn tail_of(buf: &[u8], offset: usize) -> (tail: &[u8])
    requires
        offset <= buf@.len(),
    ensures
        tail@ == buf@.skip(offset as int),
{
    let tail = &buf[offset..buf.len()];
    proof {
        assert(tail@ =~= buf@.skip(offset as int));
    }
    tail
}

impl ToBytes for u8 {
    open spec fn encoding(&self) -> Seq<u8> {
        seq![*self]
    }

    open spec fn size_bound() -> Option<nat> {
        Some(1)
    }

    open spec fn reports(&self, len: Option<usize>) -> bool {
        false
    }

    fn max_size() -> (size: Option<usize>) {
        proof {
            assert(<u8 as ToBytes>::size_bound() == Some(1nat));
        }
        Some(1)
    }

    fn to_bytes(&self, buf: &mut [u8]) -> (res: Result<usize, BytesError>) {
        if buf.len() == 0 {
            return Err(BytesError::BufferTooSmall { needed: 1, available: 0 });
        }
        buf[0] = *self;
        proof {
            assert(buf@ =~= self.encoding() + old(buf)@.skip(1));
        }
        Ok(1)
    }
}

impl FromBytes for u8 {
    open spec fn outcome(bytes: Seq<u8>) -> Result<nat, BytesError> {
        if bytes.len() < 1 {
            Err(BytesError::UnexpectedEof { needed: 1, available: 0 })
        } else {
            Ok(1)
        }
    }

    open spec fn decodes(bytes: Seq<u8>, value: Self) -> bool {
        bytes.len() >= 1 && value == bytes[0]
    }

    fn from_bytes(buf: &[u8]) -> (res: Result<(Self, usize), BytesError>) {
        if buf.len() == 0 {
            return Err(BytesError::UnexpectedEof { needed: 1, available: 0 });
        }
        Ok((buf[0], 1))
    }
}

impl Codec for u8 {
    proof fn lemma_roundtrip(&self, rest: Seq<u8>) {
    }
}

impl ToBytes for u16 {
    open spec fn encoding(&self) -> Seq<u8> {
        spec_u16_to_le_bytes(*self)
    }

    open spec fn size_bound() -> Option<nat> {
        Some(2)
    }

    open spec fn reports(&self, len: Option<usize>) -> bool {
        false
    }

    fn max_size() -> (size: Option<usize>) {
        proof {
            assert(<u16 as ToBytes>::size_bound() == Some(2nat));
            lemma_auto_spec_u16_to_from_le_bytes();
        }
        Some(2)
    }

    fn to_bytes(&self, buf: &mut [u8]) -> (res: Result<usize, BytesError>) {
        proof {
            lemma_auto_spec_u16_to_from_le_bytes();
        }
        if buf.len() < 2 {
            return Err(BytesError::BufferTooSmall { needed: 2, available: buf.len() });
        }
        let bytes = u16_to_le_bytes(*self);
        write_prefix(buf, &bytes);
        Ok(2)
    }
}

impl FromBytes for u16 {
    open spec fn outcome(bytes: Seq<u8>) -> Result<nat, BytesError> {
        if bytes.len() < 2 {
            Err(BytesError::UnexpectedEof { needed: 2, available: bytes.len() as usize })
        } else {
            Ok(2)
        }
    }

    open spec fn decodes(bytes: Seq<u8>, value: Self) -> bool {
        bytes.len() >= 2 && value == spec_u16_from_le_bytes(bytes.take(2))
    }

    fn from_bytes(buf: &[u8]) -> (res: Result<(Self, usize), BytesError>) {
        if buf.len() < 2 {
            return Err(BytesError::UnexpectedEof { needed: 2, available: buf.len() });
        }
        let head = &buf[0..2];
        proof {
            assert(head@ =~= buf@.take(2));
        }
        Ok((u16_from_le_bytes(head), 2))
    }
}

impl Codec for u16 {
    proof fn lemma_roundtrip(&self, rest: Seq<u8>) {
        lemma_auto_spec_u16_to_from_le_bytes();
        assert((self.encoding() + rest).take(2) =~= self.encoding());
    }
}

impl ToBytes for u32 {
    open spec fn encoding(&self) -> Seq<u8> {
        spec_u32_to_le_bytes(*self)
    }

    open spec fn size_bound() -> Option<nat> {
        Some(4)
    }

    open spec fn reports(&self, len: Option<usize>) -> bool {
        false
    }

    fn max_size() -> (size: Option<usize>) {
        proof {
            assert(<u32 as ToBytes>::size_bound() == Some(4nat));
            lemma_auto_spec_u32_to_from_le_bytes();
        }
        Some(4)
    }

    fn to_bytes(&self, buf: &mut [u8]) -> (res: Result<usize, BytesError>) {
        proof {
            lemma_auto_spec_u32_to_from_le_bytes();
        }
        if buf.len() < 4 {
            return Err(BytesError::BufferTooSmall { needed: 4, available: buf.len() });
        }
        let bytes = u32_to_le_bytes(*self);
        write_prefix(buf, &bytes);
        Ok(4)
    }
}

impl FromBytes for u32 {
    open spec fn outcome(bytes: Seq<u8>) -> Result<nat, BytesError> {
        if bytes.len() < 4 {
            Err(BytesError::UnexpectedEof { needed: 4, available: bytes.len() as usize })
        } else {
            Ok(4)
        }
    }

    open spec fn decodes(bytes: Seq<u8>, value: Self) -> bool {
        bytes.len() >= 4 && value == spec_u32_from_le_bytes(bytes.take(4))
    }

    fn from_bytes(buf: &[u8]) -> (res: Result<(Self, usize), BytesError>) {
        if buf.len() < 4 {
            return Err(BytesError::UnexpectedEof { needed: 4, available: buf.len() });
        }
        let head = &buf[0..4];
        proof {
            assert(head@ =~= buf@.take(4));
        }
        Ok((u32_from_le_bytes(head), 4))
    }
}

impl Codec for u32 {
    proof fn lemma_roundtrip(&self, rest: Seq<u8>) {
        lemma_auto_spec_u32_to_from_le_bytes();
        assert((self.encoding() + rest).take(4) =~= self.encoding());
    }
}

impl ToBytes for u64 {
    open spec fn encoding(&self) -> Seq<u8> {
        spec_u64_to_le_bytes(*self)
    }

    open spec fn size_bound() -> Option<nat> {
        Some(8)
    }

    open spec fn reports(&self, len: Option<usize>) -> bool {
        false
    }

    fn max_size() -> (size: Option<usize>) {
        proof {
            assert(<u64 as ToBytes>::size_bound() == Some(8nat));
            lemma_auto_spec_u64_to_from_le_bytes();
        }
        Some(8)
    }

    fn to_bytes(&self, buf: &mut [u8]) -> (res: Result<usize, BytesError>) {
        proof {
            lemma_auto_spec_u64_to_from_le_bytes();
        }
        if buf.len() < 8 {
            return Err(BytesError::BufferTooSmall { needed: 8, available: buf.len() });
        }
        let bytes = u64_to_le_bytes(*self);
        write_prefix(buf, &bytes);
        Ok(8)
    }
}

impl FromBytes for u64 {
    open spec fn outcome(bytes: Seq<u8>) -> Result<nat, BytesError> {
        if bytes.len() < 8 {
            Err(BytesError::UnexpectedEof { needed: 8, available: bytes.len() as usize })
        } else {
            Ok(8)
        }
    }

    open spec fn decodes(bytes: Seq<u8>, value: Self) -> bool {
        bytes.len() >= 8 && value == spec_u64_from_le_bytes(bytes.take(8))
    }

    fn from_bytes(buf: &[u8]) -> (res: Result<(Self, usize), BytesError>) {
        if buf.len() < 8 {
            return Err(BytesError::UnexpectedEof { needed: 8, available: buf.len() });
        }
        let head = &buf[0..8];
        proof {
            assert(head@ =~= buf@.take(8));
        }
        Ok((u64_from_le_bytes(head), 8))
    }
}

impl Codec for u64 {
    proof fn lemma_roundtrip(&self, rest: Seq<u8>) {
        lemma_auto_spec_u64_to_from_le_bytes();
        assert((self.encoding() + rest).take(8) =~= self.encoding());
    }
}

impl ToBytes for usize {
    open spec fn encoding(&self) -> Seq<u8> {
        spec_u64_to_le_bytes(*self as u64)
    }

    open spec fn size_bound() -> Option<nat> {
        Some(8)
    }

    open spec fn reports(&self, len: Option<usize>) -> bool {
        false
    }

    fn max_size() -> (size: Option<usize>) {
        proof {
            assert(<usize as ToBytes>::size_bound() == Some(8nat));
            lemma_auto_spec_u64_to_from_le_bytes();
        }
        Some(8)
    }

    fn to_bytes(&self, buf: &mut [u8]) -> (res: Result<usize, BytesError>) {
        let wide = *self as u64;
        wide.to_bytes(buf)
    }
}

impl FromBytes for usize {
    open spec fn outcome(bytes: Seq<u8>) -> Result<nat, BytesError> {
        if bytes.len() < 8 {
            Err(BytesError::UnexpectedEof { needed: 8, available: bytes.len() as usize })
        } else if spec_u64_from_le_bytes(bytes.take(8)) > usize::MAX {
            Err(BytesError::InvalidData { message: "usize out of range" })
        } else {
            Ok(8)
        }
    }

    open spec fn decodes(bytes: Seq<u8>, value: Self) -> bool {
        bytes.len() >= 8 && value == spec_u64_from_le_bytes(bytes.take(8))
    }

    fn from_bytes(buf: &[u8]) -> (res: Result<(Self, usize), BytesError>) {
        match u64::from_bytes(buf) {
            Ok((wide, used)) => {
                if wide > usize::MAX as u64 {
                    Err(BytesError::InvalidData { message: "usize out of range" })
                } else {
                    Ok((wide as usize, used))
                }
            },
            Err(error) => Err(error),
        }
    }
}

impl Codec for usize {
    proof fn lemma_roundtrip(&self, rest: Seq<u8>) {
        lemma_auto_spec_u64_to_from_le_bytes();
        assert((self.encoding() + rest).take(8) =~= self.encoding());
    }
}

impl ToBytes for bool {
    open spec fn encoding(&self) -> Seq<u8> {
        if *self {
            seq![1u8]
        } else {
            seq![0u8]
        }
    }

    open spec fn size_bound() -> Option<nat> {
        Some(1)
    }

    open spec fn reports(&self, len: Option<usize>) -> bool {
        false
    }

    fn max_size() -> (size: Option<usize>) {
        proof {
            assert(<bool as ToBytes>::size_bound() == Some(1nat));
        }
        Some(1)
    }

    fn to_bytes(&self, buf: &mut [u8]) -> (res: Result<usize, BytesError>) {
        if buf.len() == 0 {
            return Err(BytesError::BufferTooSmall { needed: 1, available: 0 });
        }
        buf[0] = if *self {
            1
        } else {
            0
        };
        proof {
            assert(buf@ =~= self.encoding() + old(buf)@.skip(1));
        }
        Ok(1)
    }
}

impl FromBytes for bool {
    open spec fn outcome(bytes: Seq<u8>) -> Result<nat, BytesError> {
        if bytes.len() < 1 {
            Err(BytesError::UnexpectedEof { needed: 1, available: 0 })
        } else if bytes[0] > 1 {
            Err(BytesError::InvalidData { message: "bool must be 0 or 1" })
        } else {
            Ok(1)
        }
    }

    open spec fn decodes(bytes: Seq<u8>, value: Self) -> bool {
        bytes.len() >= 1 && (value <==> bytes[0] == 1)
    }

    fn from_bytes(buf: &[u8]) -> (res: Result<(Self, usize), BytesError>) {
        if buf.len() == 0 {
            return Err(BytesError::UnexpectedEof { needed: 1, available: 0 });
        }
        let byte = buf[0];
        if byte == 0 {
            Ok((false, 1))
        } else if byte == 1 {
            Ok((true, 1))
        } else {
            Err(BytesError::InvalidData { message: "bool must be 0 or 1" })
        }
    }
}

impl Codec for bool {
    proof fn lemma_roundtrip(&self, rest: Seq<u8>) {
    }
}

impl ToBytes for () {
    open spec fn encoding(&self) -> Seq<u8> {
        Seq::empty()
    }

    open spec fn size_bound() -> Option<nat> {
        Some(0)
    }

    open spec fn reports(&self, len: Option<usize>) -> bool {
        false
    }

    fn max_size() -> (size: Option<usize>) {
        proof {
            assert(<() as ToBytes>::size_bound() == Some(0nat));
        }
        Some(0)
    }

    fn to_bytes(&self, buf: &mut [u8]) -> (res: Result<usize, BytesError>) {
        proof {
            assert(buf@ =~= self.encoding() + old(buf)@.skip(0));
        }
        Ok(0)
    }
}

impl FromBytes for () {
    open spec fn outcome(bytes: Seq<u8>) -> Result<nat, BytesError> {
        Ok(0)
    }

    open spec fn decodes(bytes: Seq<u8>, value: Self) -> bool {
        true
    }

    fn from_bytes(buf: &[u8]) -> (res: Result<(Self, usize), BytesError>) {
        Ok(((), 0))
    }
}

impl Codec for () {
    proof fn lemma_roundtrip(&self, rest: Seq<u8>) {
    }
}

} // verus!
