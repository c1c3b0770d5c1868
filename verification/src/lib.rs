//! A latency-sensitive arbitrage pipeline core: chain-height tracking, a
//! price table, a route prefilter, a bounded route queue, the signal
//! envelope wire format and the bridge that numbers outgoing signals.

pub mod block_listener;
pub mod connection;
pub mod counter;
pub mod dex_stream;
pub mod envelope;
pub mod payload;
pub mod pipeline;
pub mod prefilter;
pub mod queue;
pub mod signal_bridge;
pub mod wire;
