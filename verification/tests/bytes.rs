use base64::Engine;
use spill_ring::{
    decode_frame, BatchSpout, ByteSerializer, BytecastFacet, BytecastRkyv, BytesError,
    CollectSpout, FnSpout, FramedSpout, FromBytes, Spout, ToBytes, ToBytesExt,
};
use std::cell::Cell;
use std::rc::Rc;

struct Pair(u8, u8);

impl ToBytes for Pair {
    fn max_size() -> Option<usize> {
        Some(2)
    }

    fn to_bytes(&self, buf: &mut [u8]) -> Result<usize, BytesError> {
        if buf.len() < 2 {
            return Err(BytesError::BufferTooSmall {
                needed: 2,
                available: buf.len(),
            });
        }
        buf[0] = self.0;
        buf[1] = self.1;
        Ok(2)
    }
}

struct FlushTracker {
    flushed: Rc<Cell<usize>>,
}

impl Spout<Vec<u8>> for FlushTracker {
    fn send(&mut self, _item: Vec<u8>) {}

    fn flush(&mut self) {
        self.flushed.set(self.flushed.get() + 1);
    }
}

#[test]
fn framed_spout_sends_framed_bytes() {
    let mut s = FramedSpout::new(7, CollectSpout::<Vec<u8>>::new());

    s.send(42u32);

    let frames = s.inner().items();
    assert_eq!(frames.len(), 1);

    let (producer_id, value) = decode_frame::<u32>(&frames[0]).unwrap();
    assert_eq!(producer_id, 7);
    assert_eq!(value, 42);
}

#[test]
fn framed_spout_multiple_items() {
    let mut s = FramedSpout::new(0, CollectSpout::<Vec<u8>>::new());

    s.send(10u32);
    s.send(20u32);
    s.send(30u32);

    let frames = s.inner().items();
    assert_eq!(frames.len(), 3);

    let (id0, v0) = decode_frame::<u32>(&frames[0]).unwrap();
    let (id1, v1) = decode_frame::<u32>(&frames[1]).unwrap();
    let (id2, v2) = decode_frame::<u32>(&frames[2]).unwrap();

    assert_eq!((id0, v0), (0, 10));
    assert_eq!((id1, v1), (0, 20));
    assert_eq!((id2, v2), (0, 30));
}

#[test]
fn framed_spout_flush_delegates() {
    let flushed = Rc::new(Cell::new(0));

    let mut s = FramedSpout::new(0, FlushTracker { flushed: flushed.clone() });
    <FramedSpout<FlushTracker> as Spout<u32>>::flush(&mut s);
    assert_eq!(flushed.get(), 1);
}

#[test]
fn framed_spout_accessors() {
    let s = FramedSpout::new(42, CollectSpout::<Vec<u8>>::new());
    assert_eq!(s.producer_id(), 42);
    let _inner = s.inner();
}

#[test]
fn framed_spout_into_inner() {
    let mut s = FramedSpout::new(0, CollectSpout::<Vec<u8>>::new());
    s.send(1u32);

    let inner = s.into_inner();
    assert_eq!(inner.items().len(), 1);
}

#[test]
fn batch_spout_to_bytes_empty_buffer() {
    let s: BatchSpout<u32, CollectSpout<Vec<u32>>> = BatchSpout::new(10, CollectSpout::new());

    let bytes = s.to_vec().unwrap();

    assert!(!bytes.is_empty());

    let (threshold, offset) = u32::from_bytes(&bytes).unwrap();
    assert_eq!(threshold, 10);
    assert!(offset > 0);
}

#[test]
fn batch_spout_to_bytes_with_buffered_items() {
    let mut s: BatchSpout<u32, CollectSpout<Vec<u32>>> = BatchSpout::new(100, CollectSpout::new());

    s.send(1);
    s.send(2);
    s.send(3);

    let bytes = s.to_vec().unwrap();

    let (threshold, offset) = u32::from_bytes(&bytes).unwrap();
    assert_eq!(threshold, 100);

    let (buffer, _) = Vec::<u32>::from_bytes(&bytes[offset..]).unwrap();
    assert_eq!(buffer, vec![1, 2, 3]);
}

#[test]
fn fn_spout_with_to_bytes_serialization() {
    let mut serialized = Vec::new();
    {
        let mut s = FnSpout(|item: u32| {
            serialized.extend(item.to_vec().unwrap());
        });
        s.send(1u32);
        s.send(2u32);
    }

    assert_eq!(serialized.len(), 8);

    let (v1, _) = u32::from_bytes(&serialized[0..4]).unwrap();
    let (v2, _) = u32::from_bytes(&serialized[4..8]).unwrap();
    assert_eq!(v1, 1);
    assert_eq!(v2, 2);
}

#[test]
fn test_byte_serializer_new() {
    let _serializer = ByteSerializer::new();
    let _default = ByteSerializer;
}

#[test]
fn test_byte_serializer_roundtrip_u32() {
    let serializer = ByteSerializer::new();
    let value = 0x12345678u32;

    let bytes = serializer.serialize(&value).unwrap();
    assert_eq!(bytes.len(), 4);

    let result: u32 = serializer.deserialize(&bytes).unwrap();
    assert_eq!(result, value);
}

#[test]
fn test_byte_serializer_roundtrip_u64() {
    let serializer = ByteSerializer::new();
    let value = 0x123456789ABCDEF0u64;

    let bytes = serializer.serialize(&value).unwrap();
    assert_eq!(bytes.len(), 8);

    let result: u64 = serializer.deserialize(&bytes).unwrap();
    assert_eq!(result, value);
}

#[test]
fn test_byte_serializer_roundtrip_bool() {
    let serializer = ByteSerializer::new();

    let bytes_true = serializer.serialize(&true).unwrap();
    let bytes_false = serializer.serialize(&false).unwrap();

    assert_eq!(serializer.deserialize::<bool>(&bytes_true).unwrap(), true);
    assert_eq!(serializer.deserialize::<bool>(&bytes_false).unwrap(), false);
}

#[test]
fn test_rkyv_u32_roundtrip() {
    let wrapped = BytecastRkyv::encode(&0x12345678u32).unwrap();
    let val: u32 = wrapped.decode().unwrap();
    assert_eq!(val, 0x12345678u32);
}

#[test]
fn test_rkyv_bool_roundtrip() {
    let wrapped = BytecastRkyv::encode(&true).unwrap();
    let val: bool = wrapped.decode().unwrap();
    assert!(val);
}

#[test]
fn test_rkyv_truncated_decode() {
    let wrapped = BytecastRkyv::encode(&0u16).unwrap();
    let result: Result<u32, _> = wrapped.decode();
    assert!(result.is_err());
}

#[test]
fn test_facet_invalid_base64() {
    let wrapped = BytecastFacet::from_text(String::from("not-valid-base64!!!"));
    let result: Result<u32, _> = wrapped.decode();
    assert!(result.is_err());
}

#[test]
fn test_facet_truncated_bytes() {
    let short = base64::engine::general_purpose::STANDARD.encode([0u8, 1]);
    let wrapped = BytecastFacet::from_text(short);
    let result: Result<u32, _> = wrapped.decode();
    assert!(result.is_err());
}

#[test]
fn facet_text_is_base64_of_the_encoding() {
    let wrapped = BytecastFacet::encode(&0x12345678u32).unwrap();
    assert_eq!(wrapped.as_text(), "eFY0Eg==");
    let val: u32 = wrapped.decode().unwrap();
    assert_eq!(val, 0x12345678u32);
}

#[test]
fn facet_invalid_base64_is_invalid_data() {
    let wrapped = BytecastFacet::from_text(String::from("not-valid-base64!!!"));
    let result: Result<u32, BytesError> = wrapped.decode();
    assert_eq!(
        result,
        Err(BytesError::InvalidData {
            message: "invalid base64"
        })
    );
}

#[test]
fn integers_are_little_endian() {
    let mut buf = [0u8; 8];
    assert_eq!(0x1234u16.to_bytes(&mut buf), Ok(2));
    assert_eq!(&buf[..2], &[0x34, 0x12]);
    assert_eq!(0x12345678u32.to_bytes(&mut buf), Ok(4));
    assert_eq!(&buf[..4], &[0x78, 0x56, 0x34, 0x12]);
    assert_eq!(7usize.to_bytes(&mut buf), Ok(8));
    assert_eq!(buf, [7, 0, 0, 0, 0, 0, 0, 0]);
}

#[test]
fn short_buffers_are_refused() {
    let mut buf = [0u8; 3];
    assert_eq!(
        1u32.to_bytes(&mut buf),
        Err(BytesError::BufferTooSmall {
            needed: 4,
            available: 3
        })
    );
    assert_eq!(
        u32::from_bytes(&buf),
        Err(BytesError::UnexpectedEof {
            needed: 4,
            available: 3
        })
    );
    assert_eq!(
        bool::from_bytes(&[2u8]),
        Err(BytesError::InvalidData {
            message: "bool must be 0 or 1"
        })
    );
    assert_eq!(
        Option::<u8>::from_bytes(&[9u8, 1]),
        Err(BytesError::InvalidData {
            message: "Option discriminant must be 0 or 1"
        })
    );
}

#[test]
fn options_and_vectors_round_trip() {
    let value: Vec<Option<u16>> = vec![Some(1), None, Some(0xffff)];
    let bytes = value.to_vec().unwrap();
    assert_eq!(bytes.len(), 8 + 3 + 1 + 3);
    assert_eq!(value.byte_len(), Some(8 + 3 + 3 + 3));
    let (back, used) = Vec::<Option<u16>>::from_bytes(&bytes).unwrap();
    assert_eq!(back, value);
    assert_eq!(used, bytes.len());
    assert_eq!(
        Vec::<u16>::from_bytes(&[2, 0, 0, 0, 0, 0, 0, 0, 1, 0, 2]),
        Err(BytesError::UnexpectedEof {
            needed: 2,
            available: 1
        })
    );
}

#[test]
fn frame_layout_is_id_length_payload() {
    let mut s = FramedSpout::new(3, CollectSpout::<Vec<u8>>::new());
    s.send(0x0102u16);
    assert_eq!(
        s.inner().items()[0],
        vec![3, 0, 0, 0, 0, 0, 0, 0, 2, 0, 0, 0, 0x02, 0x01]
    );
    assert_eq!(
        decode_frame::<u16>(&[3, 0, 0, 0]),
        Err(BytesError::UnexpectedEof {
            needed: 8,
            available: 4
        })
    );
}

#[test]
fn a_codec_of_the_caller_is_framed() {
    assert_eq!(Pair(1, 2).to_vec(), Ok(vec![1, 2]));
    let mut s = FramedSpout::new(1, CollectSpout::<Vec<u8>>::new());
    s.send(Pair(9, 8));
    assert_eq!(
        s.inner().items()[0],
        vec![1, 0, 0, 0, 0, 0, 0, 0, 2, 0, 0, 0, 9, 8]
    );
}

#[test]
fn byte_len_is_the_bound_or_worked_out_from_the_value() {
    assert_eq!(7u8.byte_len(), Some(1));
    assert_eq!(7u64.byte_len(), Some(8));
    assert_eq!(true.byte_len(), Some(1));
    assert_eq!(().byte_len(), Some(0));
    assert_eq!(None::<u32>.byte_len(), Some(5));
    assert_eq!(Option::<Vec<u8>>::max_size(), None);
    assert_eq!(Some(vec![1u8]).byte_len(), None);
    assert_eq!(Vec::<u32>::new().byte_len(), Some(8));
    assert_eq!(vec![1u32, 2, 3].byte_len(), Some(20));
    assert_eq!(vec![vec![1u8, 2], vec![]].byte_len(), Some(8 + 10 + 8));
    assert_eq!(vec![Some(vec![1u8])].byte_len(), None);
    assert_eq!(Pair(1, 2).byte_len(), Some(2));
    assert_eq!(vec![Pair(1, 2), Pair(3, 4)].byte_len(), Some(12));

    let mut s: BatchSpout<u32, CollectSpout<Vec<u32>>> = BatchSpout::new(10, CollectSpout::new());
    assert_eq!(s.byte_len(), Some(12));
    s.send(1);
    s.send(2);
    assert_eq!(s.byte_len(), Some(20));
    assert_eq!(s.to_vec().unwrap().len(), 20);
    assert_eq!(BatchSpout::<u32, CollectSpout<Vec<u32>>>::max_size(), None);
}
