//! A verified core for a polyphase channelizer pipeline: fixed-point signal
//! conditioning stages, filter-bank partitioning, two equivalent
//! channelization strategies, configuration validation, archive header
//! framing, and the bounded producer/consumer hand-off model.

pub mod channelizer;
pub mod conditioning;
pub mod config;
pub mod devices;
pub mod handoff;
pub mod header;
pub mod pipeline;
pub mod sample;
