//! A fixed-capacity ring buffer that never blocks on overflow: when it is
//! full, the oldest element is evicted to a pluggable sink.
//!
//! - [`ring`] holds the ring itself, [`index`] and [`atomic`] the counters of
//!   the two synchronisation strategies, and [`arith`] the arithmetic of
//!   counters that wrap.
//! - [`sink`] holds the sink abstraction and the simple sinks, [`batch`],
//!   [`channel`], [`producer`] and [`framed`] the sinks that compose with
//!   others, and [`spout`] the same sinks under their other name.
//! - [`mpsc`] gives every producer a ring of its own and merges the rings
//!   when the producers are done; [`pool`] is the protocol of a worker of a
//!   pool of persistent workers.
//! - [`bytes`] is the byte codec that the framing sink uses, and
//!   [`bridges`] carries encoded values through other formats.
//! - [`laws`] states what holds of every history of pushes and pops.

pub mod arith;
pub mod atomic;
pub mod batch;
pub mod bridges;
pub mod bytes;
pub mod channel;
pub mod error;
pub mod framed;
pub mod index;
pub mod laws;
pub mod mpsc;
pub mod pool;
pub mod producer;
pub mod ring;
pub mod sink;
pub mod spout;
pub mod traits;

pub use batch::{BatchSink, ReduceSink};
pub use bridges::{BytecastFacet, BytecastRkyv};
pub use bytes::{decode_value, ByteSerializer, BytesError, Codec, FromBytes, ToBytes, ToBytesExt};
pub use channel::{ChannelSink, ChannelSpout};
pub use error::PushError;
pub use framed::{decode_frame, FramedSpout, FRAME_HEADER_SIZE};
pub use index::{Index, SinkCell, SpoutCell};
pub use mpsc::{collect_producers, Consumer, MpscRing, Producer};
pub use pool::{barrier_parties, Phase, Worker, WorkerAction, WorkerEvent};
pub use producer::ProducerSink;
pub use ring::SpillRing;
pub use sink::{sink, CollectSink, DropSink, Flush, FnFlushSink, FnSink, SendAll, Sink};
pub use spout::{
    spout, BatchSpout, CollectSpout, DropSpout, FnFlushSpout, FnSpout, ProducerSpout, ReduceSpout,
    Spout,
};
pub use traits::{RingConsumer, RingInfo, RingModel, RingProducer, RingTrait};
