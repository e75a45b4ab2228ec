//! The byte codec that the framing sink uses: a value to bytes in a buffer
//! of the caller, and bytes back to a value.

pub mod compound;
pub mod error;
pub mod impls;
pub mod serializer;
pub mod traits;

pub use error::BytesError;
pub use serializer::ByteSerializer;
pub use traits::{
    bound_as_len, decode_value, reported, Codec, FromBytes, ToBytes, ToBytesExt,
};
