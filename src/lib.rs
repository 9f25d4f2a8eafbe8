//! Verified core of an on-path interception tool: frame views and rewrites with
//! RFC 1071 checksums, a QUIC header decoder, the ARP spoofing controller, a
//! broadcasting capture/injection sink, and the per-frame relay decisions.
pub mod wire;
pub mod util;
pub mod quic;
pub mod tls;
pub mod types;
pub mod sink;
pub mod arp;
pub mod relay;
