//! Multicast PCM audio streaming: a compact wire format with per-channel
//! sequence numbers, a demultiplexing registry, and a bounded jitter buffer
//! that turns a lossy, out-of-order packet stream into a continuously
//! readable sample stream.

pub mod channel;
pub mod channelreceiver;
pub mod demux;
pub mod packet;
