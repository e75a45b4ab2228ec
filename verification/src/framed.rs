//! Framing: each item becomes one frame of bytes that says which producer
//! it came from and how long its payload is.
//!
//! A frame is the identity of the producer as a `u64`, the length of the
//! payload as a `u32`, and the payload, which is the encoding of the item.
//! The integers are written least significant byte first.

use crate::bytes::error::BytesError;
use crate::bytes::impls::{tail_of, write_at};
use crate::bytes::traits::{Codec, FromBytes, ToBytes, ToBytesExt};
use crate::sink::Sink;
use vstd::bytes::{
    lemma_auto_spec_u32_to_from_le_bytes,
    lemma_auto_spec_u64_to_from_le_bytes,
    spec_u32_to_le_bytes,
    spec_u64_to_le_bytes,
};
use vstd::prelude::*;

verus! {

/// The number of bytes of a frame before its payload.
pub const FRAME_HEADER_SIZE: usize = 12;

/// The frame of `payload` from the producer `producer_id`. The length field
/// holds the length of the payload as far as 32 bits hold it.
pub open spec fn frame_of(producer_id: usize, payload: Seq<u8>) -> Seq<u8> {
    spec_u64_to_le_bytes(producer_id as u64) + spec_u32_to_le_bytes(payload.len() as u32) + payload
}

/// Whether a frame with a payload of `len` bytes is no longer than a buffer
/// can be.
pub open spec fn frame_fits(len: nat) -> bool {
    len + FRAME_HEADER_SIZE <= usize::MAX
}

/// How decoding a frame with an item of type `T` ends: with the length of
/// the frame that was read, or with the error of the field that cannot be
/// read.
pub open spec fn frame_outcome<T: FromBytes>(frame: Seq<u8>) -> Result<nat, BytesError> {
    match usize::outcome(frame) {
        Err(error) => Err(error),
        Ok(first) => match u32::outcome(frame.skip(first as int)) {
            Err(error) => Err(error),
            Ok(second) => match T::outcome(frame.skip((first + second) as int)) {
                Err(error) => Err(error),
                Ok(third) => Ok(first + second + third),
            },
        },
    }
}

/// The sink that sends each item on as a frame of bytes.
pub struct FramedSpout<S> {
    inner: S,
    producer_id: usize,
}

impl<S> FramedSpout<S> {
    /// The sink that the frames go to.
    pub closed spec fn target(&self) -> S {
        self.inner
    }

    /// The identity that the frames carry.
    pub closed spec fn id(&self) -> usize {
        self.producer_id
    }

    /// A sink that frames for the producer `producer_id` and forwards to
    /// `inner`.
    pub fn new(producer_id: usize, inner: S) -> (sink: Self)
        ensures
            sink.id() == producer_id,
            sink.target() == inner,
    {
        FramedSpout { inner, producer_id }
    }

    /// The identity that the frames carry.
    pub fn producer_id(&self) -> (id: usize)
        ensures
            id == self.id(),
    {
        self.producer_id
    }

    /// The sink that the frames go to, for reading.
    pub fn inner(&self) -> (inner: &S)
        ensures
            *inner == self.target(),
    {
        &self.inner
    }

    /// The sink that the frames go to. The framing sink forwards to what the
    /// caller leaves behind the reference.
    pub fn inner_mut(&mut self) -> (inner: &mut S)
        ensures
            *inner == old(self).target(),
            final(self).target() == *final(inner),
            final(self).id() == old(self).id(),
    {
        &mut self.inner
    }

    /// Ends the sink and gives the inner sink.
    pub fn into_inner(self) -> (inner: S)
        ensures
            inner == self.target(),
    {
        self.inner
    }

    /// What the spec functions of the sink are in its fields.
    proof fn lemma_fields(&self)
        ensures
            self.target() == self.inner,
            self.id() == self.producer_id,
    {
    }
}

/// The frame of the bytes `payload` from the producer `producer_id`.
pub fn build_frame(producer_id: usize, payload: Vec<u8>) -> (frame: Vec<u8>)
    requires
        frame_fits(payload@.len()),
    ensures
        frame@ == frame_of(producer_id, payload@),
{
    proof {
        lemma_auto_spec_u32_to_from_le_bytes();
        lemma_auto_spec_u64_to_from_le_bytes();
    }
    let mut payload = payload;
    let ghost bytes = payload@;
    let len = payload.len();
    #[verifier::truncate]
    let short = len as u32;
    let mut frame: Vec<u8> = Vec::new();
    frame.resize(FRAME_HEADER_SIZE, 0u8);
    let _ = write_at(&producer_id, frame.as_mut_slice(), 0);
    let _ = write_at(&short, frame.as_mut_slice(), 8);
    proof {
        assert(frame@ =~= spec_u64_to_le_bytes(producer_id as u64) + spec_u32_to_le_bytes(short));
    }
    frame.append(&mut payload);
    proof {
        assert(frame@ =~= frame_of(producer_id, bytes));
    }
    frame
}

impl<T: ToBytes, S: Sink<Vec<u8>>> Sink<T> for FramedSpout<S> {
    open spec fn wf(&self) -> bool {
        self.target().wf()
    }

    /// The frame of the item goes to the inner sink. An item whose frame
    /// would be longer than a buffer can be is dropped.
    open spec fn sent(&self, item: T, after: &Self) -> bool {
        &&& after.id() == self.id()
        &&& if frame_fits(item.encoding().len()) {
            exists|frame: Vec<u8>|
                #![trigger self.target().sent(frame, &after.target())]
                frame@ == frame_of(self.id(), item.encoding()) && self.target().sent(
                    frame,
                    &after.target(),
                )
        } else {
            after.target() == self.target()
        }
    }

    /// The inner sink is flushed.
    open spec fn flushed(&self, after: &Self) -> bool {
        after.id() == self.id() && self.target().flushed(&after.target())
    }

    fn send(&mut self, item: T) {
        proof {
            old(self).lemma_fields();
        }
        match item.to_vec() {
            Ok(payload) => {
                if payload.len() <= usize::MAX - FRAME_HEADER_SIZE {
                    let frame = build_frame(self.producer_id, payload);
                    self.inner.send(frame);
                    proof {
                        self.lemma_fields();
                        assert(old(self).target().sent(frame, &self.target()));
                    }
                }
            },
            Err(_) => {},
        }
    }

    fn flush(&mut self) {
        proof {
            old(self).lemma_fields();
        }
        self.inner.flush();
        proof {
            self.lemma_fields();
        }
    }
}

/// Reads a frame: the identity of the producer and the item. The length
/// field is read and not used: the item says itself where it ends.
pub fn decode_frame<T: FromBytes>(frame: &[u8]) -> (res: Result<(usize, T), BytesError>)
    ensures
        match res {
            Ok((producer_id, item)) => {
                &&& frame_outcome::<T>(frame@) is Ok
                &&& usize::decodes(frame@, producer_id)
                &&& T::decodes(frame@.skip(FRAME_HEADER_SIZE as int), item)
            },
            Err(error) => frame_outcome::<T>(frame@) == Err::<nat, BytesError>(error),
        },
{
    let (producer_id, first) = match usize::from_bytes(frame) {
        Ok(read) => read,
        Err(error) => {
            return Err(error);
        },
    };
    let (_, second) = match u32::from_bytes(tail_of(frame, first)) {
        Ok(read) => read,
        Err(error) => {
            return Err(error);
        },
    };
    match T::from_bytes(tail_of(frame, first + second)) {
        Ok((item, _)) => Ok((producer_id, item)),
        Err(error) => Err(error),
    }
}

/// A frame is read back: from the frame of an item, the identity and the
/// item are read.
pub proof fn lemma_frame_roundtrip<T: Codec>(producer_id: usize, item: T)
    ensures
        frame_outcome::<T>(frame_of(producer_id, item.encoding())) == Ok::<nat, BytesError>(
            FRAME_HEADER_SIZE as nat + item.encoding().len(),
        ),
        usize::decodes(frame_of(producer_id, item.encoding()), producer_id),
        T::decodes(frame_of(producer_id, item.encoding()).skip(FRAME_HEADER_SIZE as int), item),
{
    lemma_auto_spec_u32_to_from_le_bytes();
    lemma_auto_spec_u64_to_from_le_bytes();
    let payload = item.encoding();
    let frame = frame_of(producer_id, payload);
    let short = payload.len() as u32;
    producer_id.lemma_roundtrip(spec_u32_to_le_bytes(short) + payload);
    assert(frame =~= producer_id.encoding() + (spec_u32_to_le_bytes(short) + payload));
    short.lemma_roundtrip(payload);
    assert(frame.skip(8) =~= short.encoding() + payload);
    item.lemma_roundtrip(Seq::<u8>::empty());
    assert(frame.skip(12) =~= payload + Seq::<u8>::empty());
}

} // verus!
