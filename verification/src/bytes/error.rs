//! The errors of the byte codec.

use vstd::prelude::*;

verus! {

/// Why a value could not be written or read.
#[derive(Debug, Clone, Copy, PartialEq, Eq)]
pub enum BytesError {
    /// The buffer is too small for what has to be written.
    BufferTooSmall {
        /// Bytes needed.
        needed: usize,
        /// Bytes available.
        available: usize,
    },
    /// The bytes do not stand for a value.
    InvalidData {
        /// What is wrong.
        message: &'static str,
    },
    /// The input ends before the value does.
    UnexpectedEof {
        /// Bytes needed.
        needed: usize,
        /// Bytes available.
        available: usize,
    },
    /// An error of an implementation outside this library.
    Custom {
        /// What is wrong.
        message: &'static str,
    },
}

} // verus!
