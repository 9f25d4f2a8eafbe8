//! The TLS record header.
use vstd::prelude::*;
use crate::wire::{be_value, copy_range, read_u16};

verus! {

/// A TLS record: content type, version, length field, and the bytes after the header.
#[derive(Debug, Clone, PartialEq)]
pub struct Tls {
    pub content_type: u8,
    pub version: u16,
    pub length: u16,
    pub payload: Vec<u8>,
}

impl Tls {
    /// Decodes a record header; `None` when `bytes` is shorter than the five header bytes.
    pub fn parse(bytes: &[u8]) -> (r: Option<Tls>)
        ensures
            r is Some <==> bytes@.len() >= 5,
            r matches Some(t) ==> t.content_type == bytes@[0] && t.version == be_value(
                bytes@.subrange(1, 3),
            ) && t.length == be_value(bytes@.subrange(3, 5)) && t.payload@ == bytes@.subrange(
                5,
                bytes@.len() as int,
            ),
    {
        if bytes.len() < 5 {
            return None;
        }
        Some(
            Tls {
                content_type: bytes[0],
                version: read_u16(bytes, 1),
                length: read_u16(bytes, 3),
                payload: copy_range(bytes, 5, bytes.len()),
            },
        )
    }
}

} // verus!
