//! The sinks under their other name. Seen from the ring that pours into it,
//! a sink is a spout; the two names stand for the same items.

pub use crate::batch::BatchSink as BatchSpout;
pub use crate::batch::ReduceSink as ReduceSpout;
pub use crate::producer::ProducerSink as ProducerSpout;
pub use crate::sink::sink as spout;
pub use crate::sink::CollectSink as CollectSpout;
pub use crate::sink::DropSink as DropSpout;
pub use crate::sink::FnFlushSink as FnFlushSpout;
pub use crate::sink::FnSink as FnSpout;
pub use crate::sink::Sink as Spout;
