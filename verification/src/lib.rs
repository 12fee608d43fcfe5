//! A process-embedded log forwarder: structured log records produced inside a
//! host process are filtered, queued, and shipped in order to a remote console
//! over a persistent streaming connection.
//!
//! The verified core is the forwarding pipeline: the wire record model and its
//! lossless codec, the sink adapter that filters records by origin, the bounded
//! FIFO hand-off queue, and the delivery state machine. The thin unverified
//! shell around it performs the actual network and thread plumbing.

pub mod codec;
pub mod logger;
pub mod protocol;
pub mod queue;
pub mod session;
