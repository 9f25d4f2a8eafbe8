use vstd::prelude::*;
use crate::types::binary::LuaBinary;
use crate::types::tcp::LuaTcpPacket;
use crate::types::udp::LuaUdpPacket;
use crate::util::{checksum, internet_checksum, lemma_checksum_validates};
use crate::wire::{
    append_bytes, be_bytes, be_value, copy_range, lemma_pow256_small, overwrite, push_be, put_be,
    read_u16, read_u32,
};

verus! {

/// The IP protocol number of TCP.
pub const PROTOCOL_TCP: u8 = 6;

/// The IP protocol number of UDP.
pub const PROTOCOL_UDP: u8 = 17;

/// Where the payload of IPv4 packet `p` starts: the header length field in
/// bytes, and never less than the 20 bytes of a header without options.
pub open spec fn ipv4_header_len(p: Seq<u8>) -> nat {
    let h = (p[0] % 16) * 4;
    if h > 20 {
        h as nat
    } else {
        20
    }
}

/// The total length field of IPv4 packet `p`.
pub open spec fn ipv4_total_length(p: Seq<u8>) -> nat {
    be_value(p.subrange(2, 4))
}

/// The source address of IPv4 packet `p`.
pub open spec fn ipv4_source(p: Seq<u8>) -> nat {
    be_value(p.subrange(12, 16))
}

/// The destination address of IPv4 packet `p`.
pub open spec fn ipv4_destination(p: Seq<u8>) -> nat {
    be_value(p.subrange(16, 20))
}

/// The payload of IPv4 packet `p`: from the end of the header for as many
/// bytes as the total length leaves after the header, cut at the end of `p`.
pub open spec fn ipv4_payload(p: Seq<u8>) -> Seq<u8> {
    let start = ipv4_header_len(p);
    let hl = (p[0] % 16) * 4;
    let plen = if ipv4_total_length(p) >= hl {
        ipv4_total_length(p) - hl
    } else {
        0
    };
    let end = if start + plen < p.len() {
        start + plen
    } else {
        p.len() as int
    };
    if p.len() <= start {
        Seq::empty()
    } else {
        p.subrange(start as int, end)
    }
}

/// How much of `p` a rewrite keeps as header: the header length, or all of
/// `p` when it is shorter.
pub open spec fn kept_header_len(p: Seq<u8>) -> nat {
    if ipv4_header_len(p) < p.len() {
        ipv4_header_len(p)
    } else {
        p.len()
    }
}

/// The header of `p` prepared for a payload of `n` bytes: total length set,
/// checksum zero.
pub open spec fn header_for(p: Seq<u8>, n: nat) -> Seq<u8> {
    let k = kept_header_len(p);
    overwrite(
        overwrite(p.subrange(0, k as int), 2, be_bytes(k + n, 2)),
        10,
        be_bytes(0, 2),
    )
}

/// `p` re-encapsulating `payload`: the prepared header with its checksum
/// filled in, followed by the payload.
pub open spec fn ipv4_rebuilt(p: Seq<u8>, payload: Seq<u8>) -> Seq<u8> {
    let z = header_for(p, payload.len());
    overwrite(z, 10, be_bytes(internet_checksum(z) as nat, 2)) + payload
}

/// The pseudo-header that a transport checksum covers.
pub open spec fn pseudo_header(source: nat, destination: nat, protocol: u8, length: nat) -> Seq<u8> {
    be_bytes(source, 4) + be_bytes(destination, 4) + seq![0u8, protocol] + be_bytes(length, 2)
}

/// TCP segment `seg` with its checksum field computed over the pseudo-header
/// and the segment with a zero checksum.
pub open spec fn tcp_sealed(source: nat, destination: nat, seg: Seq<u8>) -> Seq<u8> {
    let z = overwrite(seg, 16, be_bytes(0, 2));
    overwrite(
        z,
        16,
        be_bytes(
            internet_checksum(pseudo_header(source, destination, PROTOCOL_TCP, seg.len()) + z)
                as nat,
            2,
        ),
    )
}

/// UDP datagram `seg` with its checksum field zero (no checksum).
pub open spec fn udp_cleared(seg: Seq<u8>) -> Seq<u8> {
    overwrite(seg, 6, be_bytes(0, 2))
}

/// `seg` with a checksum over the pseudo-header for `source` and `destination`
/// written at byte 16, as TCP places it.
fn seal_tcp(source: u32, destination: u32, seg: &[u8]) -> (r: Vec<u8>)
    requires
        seg@.len() >= 20,
    ensures
        r@ == tcp_sealed(source as nat, destination as nat, seg@),
{
    let mut z = copy_range(seg, 0, seg.len());
    assert(seg@.subrange(0, seg@.len() as int) =~= seg@);
    put_be(&mut z, 16, 0, 2);
    let mut covered: Vec<u8> = Vec::new();
    push_be(&mut covered, source as u64, 4);
    push_be(&mut covered, destination as u64, 4);
    covered.push(0);
    covered.push(PROTOCOL_TCP);
    push_be(&mut covered, seg.len() as u64, 2);
    append_bytes(&mut covered, &z);
    assert(covered@ =~= pseudo_header(source as nat, destination as nat, PROTOCOL_TCP, seg@.len())
        + overwrite(seg@, 16, be_bytes(0, 2)));
    let c = checksum(&covered);
    put_be(&mut z, 16, c as u64, 2);
    z
}

/// An IPv4 packet as a packet hook sees it.
pub struct LuaIpv4Packet(pub Vec<u8>);

impl LuaIpv4Packet {
    /// Long enough for a header without options.
    pub open spec fn wf(&self) -> bool {
        self.0@.len() >= 20
    }

    /// The source address.
    pub fn source(&self) -> (r: u32)
        requires
            self.wf(),
        ensures
            r == ipv4_source(self.0@),
    {
        read_u32(&self.0, 12)
    }

    /// The destination address.
    pub fn destination(&self) -> (r: u32)
        requires
            self.wf(),
        ensures
            r == ipv4_destination(self.0@),
    {
        read_u32(&self.0, 16)
    }

    /// The protocol number of the payload.
    pub fn protocol(&self) -> (r: u8)
        requires
            self.wf(),
        ensures
            r == self.0@[9],
    {
        self.0[9]
    }

    /// The size of the whole packet in bytes.
    pub fn size(&self) -> (r: usize)
        ensures
            r == self.0@.len(),
    {
        self.0.len()
    }

    /// A copy of the whole packet.
    pub fn packet(&self) -> (r: LuaBinary)
        ensures
            r.0@ == self.0@,
    {
        let r = copy_range(&self.0, 0, self.0.len());
        assert(self.0@.subrange(0, self.0@.len() as int) =~= self.0@);
        LuaBinary(r)
    }

    /// A copy of the payload.
    pub fn payload(&self) -> (r: Vec<u8>)
        requires
            self.wf(),
        ensures
            r@ == ipv4_payload(self.0@),
    {
        let len = self.0.len();
        let hl = (self.0[0] % 16) as usize * 4;
        let start: usize = if hl > 20 {
            hl
        } else {
            20
        };
        let total = read_u16(&self.0, 2) as usize;
        let plen: usize = if total >= hl {
            total - hl
        } else {
            0
        };
        let end: usize = if start + plen < len {
            start + plen
        } else {
            len
        };
        if len <= start {
            Vec::new()
        } else {
            copy_range(&self.0, start, end)
        }
    }

    /// The TCP segment carried: `Some` when the protocol is TCP and the payload
    /// is long enough for a TCP header.
    pub fn as_tcp(&self) -> (r: Option<LuaTcpPacket>)
        requires
            self.wf(),
        ensures
            r is Some <==> (self.0@[9] == PROTOCOL_TCP && ipv4_payload(self.0@).len() >= 20),
            r matches Some(t) ==> t.0@ == ipv4_payload(self.0@) && t.wf(),
    {
        if self.0[9] == PROTOCOL_TCP {
            let p = self.payload();
            if p.len() >= 20 {
                return Some(LuaTcpPacket(p));
            }
        }
        None
    }

    /// The UDP datagram carried: `Some` when the protocol is UDP and the payload
    /// is long enough for a UDP header.
    pub fn as_udp(&self) -> (r: Option<LuaUdpPacket>)
        requires
            self.wf(),
        ensures
            r is Some <==> (self.0@[9] == PROTOCOL_UDP && ipv4_payload(self.0@).len() >= 8),
            r matches Some(u) ==> u.0@ == ipv4_payload(self.0@) && u.wf(),
    {
        if self.0[9] == PROTOCOL_UDP {
            let p = self.payload();
            if p.len() >= 8 {
                return Some(LuaUdpPacket(p));
            }
        }
        None
    }

    /// Re-encapsulates `payload`: keeps the header, sets the total length,
    /// recomputes the header checksum. Refused (nothing changes) when the
    /// packet would exceed 65535 bytes.
    fn rebuild(&mut self, payload: &[u8]) -> (r: bool)
        requires
            old(self).wf(),
        ensures
            r == (kept_header_len(old(self).0@) + payload@.len() <= 0xffff),
            r ==> final(self).0@ == ipv4_rebuilt(old(self).0@, payload@),
            r ==> internet_checksum(
                final(self).0@.subrange(0, kept_header_len(old(self).0@) as int),
            ) == 0,
            !r ==> final(self).0@ == old(self).0@,
            final(self).wf(),
    {
        let len = self.0.len();
        let hl = (self.0[0] % 16) as usize * 4;
        let start: usize = if hl > 20 {
            hl
        } else {
            20
        };
        let k: usize = if start < len {
            start
        } else {
            len
        };
        if payload.len() > 0xffff - k {
            return false;
        }
        let mut out = copy_range(&self.0, 0, k);
        put_be(&mut out, 2, (k + payload.len()) as u64, 2);
        put_be(&mut out, 10, 0, 2);
        let ghost zeroed = out@;
        assert(zeroed =~= header_for(self.0@, payload@.len()));
        proof {
            lemma_pow256_small();
            assert(be_bytes(0, 2)[0] == 0 && be_bytes(0, 2)[1] == 0);
        }
        assert(zeroed[10] == 0 && zeroed[11] == 0);
        let c = checksum(&out);
        put_be(&mut out, 10, c as u64, 2);
        proof {
            lemma_checksum_validates(zeroed, 10);
        }
        let ghost sealed = out@;
        append_bytes(&mut out, payload);
        assert(out@.subrange(0, k as int) =~= sealed);
        self.0 = out;
        true
    }

    /// Makes `tcp` the payload: the segment gets its checksum over the
    /// pseudo-header of this packet's addresses, then the IPv4 header is
    /// rebuilt. Refused when the packet would exceed 65535 bytes.
    pub fn set_tcp_payload(&mut self, tcp: &LuaTcpPacket) -> (r: bool)
        requires
            old(self).wf(),
            tcp.wf(),
        ensures
            final(self).wf(),
            r == (kept_header_len(old(self).0@) + tcp.0@.len() <= 0xffff),
            r ==> final(self).0@ == ipv4_rebuilt(
                old(self).0@,
                tcp_sealed(ipv4_source(old(self).0@), ipv4_destination(old(self).0@), tcp.0@),
            ),
            r ==> internet_checksum(
                final(self).0@.subrange(0, kept_header_len(old(self).0@) as int),
            ) == 0,
            !r ==> final(self).0@ == old(self).0@,
    {
        let sealed = seal_tcp(self.source(), self.destination(), &tcp.0);
        self.rebuild(&sealed)
    }

    /// Makes `udp` the payload with its checksum left at zero (UDP checksums
    /// are optional), then rebuilds the IPv4 header. Refused when the packet
    /// would exceed 65535 bytes.
    pub fn set_udp_payload(&mut self, udp: &LuaUdpPacket) -> (r: bool)
        requires
            old(self).wf(),
            udp.wf(),
        ensures
            final(self).wf(),
            r == (kept_header_len(old(self).0@) + udp.0@.len() <= 0xffff),
            r ==> final(self).0@ == ipv4_rebuilt(old(self).0@, udp_cleared(udp.0@)),
            r ==> internet_checksum(
                final(self).0@.subrange(0, kept_header_len(old(self).0@) as int),
            ) == 0,
            !r ==> final(self).0@ == old(self).0@,
    {
        let mut seg = copy_range(&udp.0, 0, udp.0.len());
        assert(udp.0@.subrange(0, udp.0@.len() as int) =~= udp.0@);
        put_be(&mut seg, 6, 0, 2);
        self.rebuild(&seg)
    }

    /// Makes `data` the payload as it is, then rebuilds the IPv4 header.
    /// Refused when the packet would exceed 65535 bytes.
    pub fn set_binary_payload(&mut self, data: &LuaBinary) -> (r: bool)
        requires
            old(self).wf(),
        ensures
            final(self).wf(),
            r == (kept_header_len(old(self).0@) + data.0@.len() <= 0xffff),
            r ==> final(self).0@ == ipv4_rebuilt(old(self).0@, data.0@),
            r ==> internet_checksum(
                final(self).0@.subrange(0, kept_header_len(old(self).0@) as int),
            ) == 0,
            !r ==> final(self).0@ == old(self).0@,
    {
        self.rebuild(&data.0)
    }
}

} // verus!
