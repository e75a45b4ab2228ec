//! The sink that forwards into a channel to another thread.

use crate::sink::Sink;
use std::sync::mpsc::Sender;
use vstd::prelude::*;

verus! {

/// The sending half of a channel of std. Nothing inside it is visible to
/// the verifier.
#[verifier::external_type_specification]
#[verifier::external_body]
#[verifier::reject_recursive_types(T)]
pub struct ExSender<T>(Sender<T>);

/// `Sender::send` of std's channel: hands `item` to the channel, without
/// blocking. It fails only when the receiver is gone, and that is all which
/// the result tells. Nothing is claimed of it.
#[verifier::external_body]
fn channel_send<T>(sender: &Sender<T>, item: T) -> (delivered: bool) {
    sender.send(item).is_ok()
}

/// `Clone::clone` of std's `Sender`: one more sending half of the same
/// channel. Nothing is claimed of it.
pub assume_specification<T>[ <Sender<T> as Clone>::clone ](sender: &Sender<T>) -> (copy: Sender<T>);

/// The sink that forwards each item into a channel. Where the receiver is
/// gone the item is dropped, and that is no error.
#[derive(Debug, Clone)]
#[verifier::reject_recursive_types(T)]
pub struct ChannelSink<T> {
    sender: Sender<T>,
}

impl<T> ChannelSink<T> {
    /// The sending half that the items go into.
    pub closed spec fn channel(&self) -> Sender<T> {
        self.sender
    }

    /// A sink that forwards into `sender`.
    pub fn new(sender: Sender<T>) -> (sink: Self)
        ensures
            sink.channel() == sender,
    {
        ChannelSink { sender }
    }

    /// The sending half of the channel.
    pub fn sender(&self) -> (sender: &Sender<T>)
        ensures
            *sender == self.channel(),
    {
        &self.sender
    }

    /// Ends the sink and gives the sending half back.
    pub fn into_sender(self) -> (sender: Sender<T>)
        ensures
            sender == self.channel(),
    {
        self.sender
    }
}

impl<T> Sink<T> for ChannelSink<T> {
    /// The sink keeps its sending half. What has become of the item is for
    /// the receiving side to tell.
    open spec fn sent(&self, item: T, after: &Self) -> bool {
        after.channel() == self.channel()
    }

    open spec fn flushed(&self, after: &Self) -> bool {
        after.channel() == self.channel()
    }

    fn send(&mut self, item: T) {
        let _ = channel_send(&self.sender, item);
    }

    fn flush(&mut self) {
    }
}

/// The channel sink under the name that the sink has as a spout.
pub type ChannelSpout<T> = ChannelSink<T>;

} // verus!
