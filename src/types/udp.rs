use vstd::prelude::*;
use crate::quic::QUIC;
use crate::types::binary::LuaBinary;
use crate::types::quic::LuaQUIC;
use crate::wire::{append_bytes, be_bytes, be_value, copy_range, overwrite, put_be, read_u16};

verus! {

/// The payload of UDP datagram `s`: everything after its 8-byte header.
pub open spec fn udp_payload(s: Seq<u8>) -> Seq<u8> {
    s.subrange(8, s.len() as int)
}

/// Whether a UDP payload is taken for a QUIC long header: its first byte has
/// both top bits set. Short headers are not recognised.
pub open spec fn looks_like_quic(p: Seq<u8>) -> bool {
    p.len() > 0 && p[0] / 64 == 3
}

/// A UDP datagram as a packet hook sees it.
pub struct LuaUdpPacket(pub Vec<u8>);

impl LuaUdpPacket {
    /// Long enough for a UDP header.
    pub open spec fn wf(&self) -> bool {
        self.0@.len() >= 8
    }

    /// The source port.
    pub fn source_port(&self) -> (r: u16)
        requires
            self.wf(),
        ensures
            r == be_value(self.0@.subrange(0, 2)),
    {
        read_u16(&self.0, 0)
    }

    /// The destination port.
    pub fn destination_port(&self) -> (r: u16)
        requires
            self.wf(),
        ensures
            r == be_value(self.0@.subrange(2, 4)),
    {
        read_u16(&self.0, 2)
    }

    /// The checksum field.
    pub fn checksum(&self) -> (r: u16)
        requires
            self.wf(),
        ensures
            r == be_value(self.0@.subrange(6, 8)),
    {
        read_u16(&self.0, 6)
    }

    /// The size of the whole datagram in bytes.
    pub fn size(&self) -> (r: usize)
        ensures
            r == self.0@.len(),
    {
        self.0.len()
    }

    /// A copy of the payload.
    pub fn payload(&self) -> (r: LuaBinary)
        requires
            self.wf(),
        ensures
            r.0@ == udp_payload(self.0@),
    {
        LuaBinary(copy_range(&self.0, 8, self.0.len()))
    }

    /// Whether the payload is taken for a QUIC long header.
    pub fn is_quic(&self) -> (r: bool)
        requires
            self.wf(),
        ensures
            r == looks_like_quic(udp_payload(self.0@)),
    {
        self.0.len() > 8 && self.0[8] / 64 == 3
    }

    /// The QUIC long header carried: `Some` when the payload is taken for QUIC,
    /// the two low bits of its first byte are zero, and the header is complete.
    pub fn quic(&self) -> (r: Option<LuaQUIC>)
        requires
            self.wf(),
        ensures
            r is Some <==> looks_like_quic(udp_payload(self.0@)) && udp_payload(self.0@)[0] % 4 == 0
                && crate::quic::long_header_fits(udp_payload(self.0@)),
            r matches Some(q) ==> q.0.decodes(udp_payload(self.0@)),
    {
        if self.is_quic() && self.0[8] % 4 == 0 {
            let p = self.payload();
            match QUIC::parse(&p.0) {
                Some(q) => Some(LuaQUIC(q)),
                None => None,
            }
        } else {
            None
        }
    }

    /// Replaces the payload with `data`: the length field is set and the
    /// checksum left at zero. Refused (nothing changes) when the datagram
    /// would exceed 65535 bytes.
    pub fn set_payload(&mut self, data: &[u8]) -> (r: bool)
        requires
            old(self).wf(),
        ensures
            final(self).wf(),
            r == (8 + data@.len() <= 0xffff),
            r ==> final(self).0@ == overwrite(
                overwrite(old(self).0@.subrange(0, 8), 4, be_bytes(8 + data@.len(), 2)),
                6,
                be_bytes(0, 2),
            ) + data@,
            !r ==> final(self).0@ == old(self).0@,
    {
        if data.len() > 0xffff - 8 {
            return false;
        }
        let mut out = copy_range(&self.0, 0, 8);
        put_be(&mut out, 4, (8 + data.len()) as u64, 2);
        put_be(&mut out, 6, 0, 2);
        append_bytes(&mut out, data);
        self.0 = out;
        true
    }
}

} // verus!
