//! Decoding core of an IPFIX (RFC 7011) collector.
//!
//! The crate holds the wire decoder, the template registry and the
//! decisions of the collector's workers: what each of them does with one
//! message. The socket and the threads that run the workers are left to the
//! program that embeds it.

pub mod wire;
pub mod templates;
pub mod template_ring;
pub mod parse_data;
pub mod parse_packet;
pub mod executor;
