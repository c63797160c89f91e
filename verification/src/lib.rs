//! Verified core of the pelican telemetry ingestor: a bounded single-producer /
//! single-consumer ring queue and the decoder for the versioned telemetry frame.
pub mod cache_line;
pub mod ring;
pub mod spsc;
pub mod checksum;
pub mod wire;
pub mod wire_laws;
