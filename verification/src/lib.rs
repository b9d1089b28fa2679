//! Verified core of a two-pod FizzBuzz pipeline: a publisher that generates
//! sequence numbers and heartbeats and frames them as big-endian byte streams,
//! and a subscriber that unframes them, checks their order and turns each
//! number into a FizzBuzz message.
pub mod wire;
pub mod framing;
pub mod sequence;
pub mod generator;
pub mod heartbeat;
pub mod logger;
pub mod deserialize;
pub mod worker;
pub mod config;
