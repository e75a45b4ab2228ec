//! The error of a bounded push.

use vstd::prelude::*;

verus! {

/// Why `try_push` did not take an item. The item comes back inside.
#[derive(Clone, Copy, PartialEq, Eq, Debug)]
pub enum PushError<T> {
    /// The ring is at capacity.
    Full(T),
}

impl<T> PushError<T> {
    /// The item that was not pushed.
    pub fn into_inner(self) -> (item: T)
        ensures
            self == PushError::Full(item),
    {
        match self {
            PushError::Full(item) => item,
        }
    }

    /// The error in words.
    pub fn message(&self) -> (text: String)
        ensures
            text@ == "ring buffer is full"@,
    {
        "ring buffer is full".to_owned()
    }
}

} // verus!
