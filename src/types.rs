//! Views of a captured frame and of the protocols inside it, each holding its
//! own copy of the bytes, with the accessors and payload rewrites a packet
//! hook works with.
pub mod binary;
pub mod ethernet;
pub mod ipv4;
pub mod quic;
pub mod tcp;
pub mod tls;
pub mod udp;
