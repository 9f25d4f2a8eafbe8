use vstd::prelude::*;
use crate::types::binary::LuaBinary;
use crate::types::tls::LuaTls;
use crate::wire::{append_bytes, be_value, copy_range, read_u16, read_u32};

verus! {

/// Where the payload of TCP segment `s` starts: the data offset in bytes, and
/// never less than the 20 bytes of a header without options.
pub open spec fn tcp_header_len(s: Seq<u8>) -> nat {
    let h = (s[12] / 16) * 4;
    if h > 20 {
        h as nat
    } else {
        20
    }
}

/// The payload of TCP segment `s`.
pub open spec fn tcp_payload(s: Seq<u8>) -> Seq<u8> {
    if s.len() <= tcp_header_len(s) {
        Seq::empty()
    } else {
        s.subrange(tcp_header_len(s) as int, s.len() as int)
    }
}

/// The header of `s` as a payload rewrite keeps it: everything before the payload.
pub open spec fn tcp_kept_header(s: Seq<u8>) -> Seq<u8> {
    s.subrange(0, s.len() - tcp_payload(s).len())
}

/// Whether a TCP payload looks like a TLS record: a handshake (0x16) or
/// application data (0x17) content type followed by major version 3.
pub open spec fn looks_like_tls(p: Seq<u8>) -> bool {
    p.len() >= 2 && (p[0] == 0x16 || p[0] == 0x17) && p[1] == 0x03
}

/// A TCP segment as a packet hook sees it.
pub struct LuaTcpPacket(pub Vec<u8>);

impl LuaTcpPacket {
    /// Long enough for a header without options.
    pub open spec fn wf(&self) -> bool {
        self.0@.len() >= 20
    }

    /// The source port.
    pub fn source_port(&self) -> (r: u16)
        requires
            self.wf(),
        ensures
            r == be_value(self.0@.subrange(0, 2)),
    {
        read_u16(&self.0, 0)
    }

    /// The destination port.
    pub fn destination_port(&self) -> (r: u16)
        requires
            self.wf(),
        ensures
            r == be_value(self.0@.subrange(2, 4)),
    {
        read_u16(&self.0, 2)
    }

    /// The sequence number.
    pub fn sequence(&self) -> (r: u32)
        requires
            self.wf(),
        ensures
            r == be_value(self.0@.subrange(4, 8)),
    {
        read_u32(&self.0, 4)
    }

    /// The acknowledgement number.
    pub fn acknowledgement(&self) -> (r: u32)
        requires
            self.wf(),
        ensures
            r == be_value(self.0@.subrange(8, 12)),
    {
        read_u32(&self.0, 8)
    }

    /// The nine flag bits.
    pub fn flags(&self) -> (r: u16)
        requires
            self.wf(),
        ensures
            r == (self.0@[12] % 2) * 256 + self.0@[13],
    {
        (self.0[12] % 2) as u16 * 256 + self.0[13] as u16
    }

    /// The window size.
    pub fn window(&self) -> (r: u16)
        requires
            self.wf(),
        ensures
            r == be_value(self.0@.subrange(14, 16)),
    {
        read_u16(&self.0, 14)
    }

    /// The checksum field.
    pub fn checksum(&self) -> (r: u16)
        requires
            self.wf(),
        ensures
            r == be_value(self.0@.subrange(16, 18)),
    {
        read_u16(&self.0, 16)
    }

    /// The urgent pointer.
    pub fn urgent(&self) -> (r: u16)
        requires
            self.wf(),
        ensures
            r == be_value(self.0@.subrange(18, 20)),
    {
        read_u16(&self.0, 18)
    }

    /// The size of the whole segment in bytes.
    pub fn size(&self) -> (r: usize)
        ensures
            r == self.0@.len(),
    {
        self.0.len()
    }

    /// Where the payload starts, as far as the segment reaches.
    fn payload_start(&self) -> (r: usize)
        requires
            self.wf(),
        ensures
            r == if self.0@.len() <= tcp_header_len(self.0@) {
                self.0@.len()
            } else {
                tcp_header_len(self.0@)
            },
    {
        let h = (self.0[12] / 16) as usize * 4;
        let start: usize = if h > 20 {
            h
        } else {
            20
        };
        if self.0.len() <= start {
            self.0.len()
        } else {
            start
        }
    }

    /// A copy of the payload.
    pub fn payload(&self) -> (r: LuaBinary)
        requires
            self.wf(),
        ensures
            r.0@ == tcp_payload(self.0@),
    {
        let start = self.payload_start();
        LuaBinary(copy_range(&self.0, start, self.0.len()))
    }

    /// Whether the payload looks like a TLS record.
    pub fn is_tls(&self) -> (r: bool)
        requires
            self.wf(),
        ensures
            r == looks_like_tls(tcp_payload(self.0@)),
    {
        let start = self.payload_start();
        let len = self.0.len();
        len - start >= 2 && (self.0[start] == 0x16 || self.0[start] == 0x17) && self.0[start + 1]
            == 0x03
    }

    /// The TLS record carried: `Some` when the payload looks like TLS and holds
    /// at least a record header.
    pub fn as_tls(&self) -> (r: Option<LuaTls>)
        requires
            self.wf(),
        ensures
            r is Some <==> (looks_like_tls(tcp_payload(self.0@)) && tcp_payload(self.0@).len() >= 5),
            r matches Some(t) ==> t.0@ == tcp_payload(self.0@) && t.wf(),
    {
        if self.is_tls() {
            let p = self.payload();
            if p.0.len() >= 5 {
                return Some(LuaTls(p.0));
            }
        }
        None
    }

    /// Replaces the payload with `data`, keeping the header. The checksum is
    /// left as it was: it covers an IPv4 pseudo-header, so it is recomputed
    /// when the segment is put into an IPv4 packet.
    pub fn set_payload(&mut self, data: &[u8])
        requires
            old(self).wf(),
        ensures
            final(self).wf(),
            final(self).0@ == tcp_kept_header(old(self).0@) + data@,
    {
        let start = self.payload_start();
        let mut out = copy_range(&self.0, 0, start);
        append_bytes(&mut out, data);
        self.0 = out;
    }
}

} // verus!
