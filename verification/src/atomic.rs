//! The counter of the cross-thread strategy: an atomic `usize` that is read
//! with acquire ordering and written with release ordering.
//!
//! A thread that sees a value that another thread stored also sees what that
//! thread wrote before the store. What the value is depends on the other
//! thread, so the verifier is told nothing of it: this module only fixes the
//! orderings. The ring of this library is the single-owner one and uses
//! [`crate::index::Index`].

use core::sync::atomic::AtomicUsize;
use vstd::prelude::*;

verus! {

/// A counter that one thread advances and another reads.
pub struct Index(AtomicUsize);

impl Index {
    /// A counter that starts at `val`.
    pub fn new(val: usize) -> (index: Self) {
        Index(AtomicUsize::new(val))
    }

    /// The value, read with acquire ordering.
    pub fn load(&self) -> (val: usize) {
        self.0.load(core::sync::atomic::Ordering::Acquire)
    }

    /// The value, read with relaxed ordering: for the thread that owns the
    /// counter.
    pub fn load_relaxed(&self) -> (val: usize) {
        self.0.load(core::sync::atomic::Ordering::Relaxed)
    }

    /// Stores `val` with release ordering.
    pub fn store(&self, val: usize) {
        self.0.store(val, core::sync::atomic::Ordering::Release);
    }

    /// Replaces the value by `new` if it is `current`, with acquire-release
    /// ordering where it does and acquire ordering where it does not.
    /// Returns `Ok` with the value found when it did, `Err` with it when it
    /// did not.
    pub fn compare_exchange(&self, current: usize, new: usize) -> (res: Result<usize, usize>) {
        self.0.compare_exchange(
            current,
            new,
            core::sync::atomic::Ordering::AcqRel,
            core::sync::atomic::Ordering::Acquire,
        )
    }
}

} // verus!
