//! The counters that mark the live window of a ring, and the cell that holds
//! its sink.
//!
//! This is the single-owner strategy: a counter is a plain `usize` that its
//! owner reads and writes through exclusive access.

use vstd::prelude::*;

verus! {

/// A monotonically advancing counter. It wraps at the width of `usize`.
pub struct Index(usize);

impl View for Index {
    type V = usize;

    closed spec fn view(&self) -> usize {
        self.0
    }
}

impl Index {
    /// A counter that starts at `val`.
    pub fn new(val: usize) -> (index: Self)
        ensures
            index@ == val,
    {
        Index(val)
    }

    /// The current value, as the other side of the ring last published it.
    pub fn load(&self) -> (val: usize)
        ensures
            val == self@,
    {
        self.0
    }

    /// The current value, read by the side that owns this counter.
    pub fn load_relaxed(&self) -> (val: usize)
        ensures
            val == self@,
    {
        self.0
    }

    /// Publishes `val` as the new value.
    pub fn store(&mut self, val: usize)
        ensures
            final(self)@ == val,
    {
        self.0 = val;
    }

    /// Replaces the value by `new` if it is `current`. Returns `Ok(current)`
    /// when it did, and `Err` with the value found when it did not.
    pub fn compare_exchange(&mut self, current: usize, new: usize) -> (res: Result<usize, usize>)
        ensures
            old(self)@ == current ==> res == Ok::<usize, usize>(current) && final(self)@ == new,
            old(self)@ != current ==> res == Err::<usize, usize>(old(self)@) && final(self)@
                == old(self)@,
    {
        if self.0 == current {
            self.0 = new;
            Ok(current)
        } else {
            Err(self.0)
        }
    }
}

/// The cell in which a ring keeps its sink.
pub struct SinkCell<S>(S);

impl<S> View for SinkCell<S> {
    type V = S;

    closed spec fn view(&self) -> S {
        self.0
    }
}

impl<S> SinkCell<S> {
    /// A cell that holds `sink`.
    pub fn new(sink: S) -> (cell: Self)
        ensures
            cell@ == sink,
    {
        SinkCell(sink)
    }

    /// The sink, for reading.
    pub fn get_ref(&self) -> (sink: &S)
        ensures
            *sink == self@,
    {
        &self.0
    }

    /// The sink, for sending to it. What the caller leaves behind the
    /// reference is what the cell holds afterwards.
    pub fn get_mut(&mut self) -> (sink: &mut S)
        ensures
            *sink == old(self)@,
            final(self)@ == *final(sink),
    {
        &mut self.0
    }

    /// Gives the sink back and ends the cell.
    pub fn into_inner(self) -> (sink: S)
        ensures
            sink == self@,
    {
        self.0
    }
}

/// The cell of a ring under the name that the sink has as a spout.
pub type SpoutCell<S> = SinkCell<S>;

} // verus!
