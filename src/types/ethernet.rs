use vstd::prelude::*;
use crate::types::binary::LuaBinary;
use crate::types::ipv4::LuaIpv4Packet;
use crate::wire::{append_bytes, be_bytes, be_value, copy_range, overwrite, put_be, read_be, read_u16};

verus! {

/// Bytes in an Ethernet header: destination, source, EtherType.
pub const ETHERNET_HEADER_LEN: usize = 14;

/// The EtherType of IPv4.
pub const ETHERTYPE_IPV4: u16 = 0x0800;

/// The EtherType of ARP.
pub const ETHERTYPE_ARP: u16 = 0x0806;

/// The destination link address of frame `f`, as a 48-bit number.
pub open spec fn eth_destination(f: Seq<u8>) -> nat {
    be_value(f.subrange(0, 6))
}

/// The source link address of frame `f`, as a 48-bit number.
pub open spec fn eth_source(f: Seq<u8>) -> nat {
    be_value(f.subrange(6, 12))
}

/// The EtherType of frame `f`.
pub open spec fn eth_type(f: Seq<u8>) -> nat {
    be_value(f.subrange(12, 14))
}

/// What follows the Ethernet header of frame `f`.
pub open spec fn eth_payload(f: Seq<u8>) -> Seq<u8> {
    f.subrange(14, f.len() as int)
}

/// Frame `f` with new link addresses; EtherType and payload stay.
pub open spec fn readdressed(f: Seq<u8>, source: u64, destination: u64) -> Seq<u8> {
    overwrite(overwrite(f, 0, be_bytes(destination as nat, 6)), 6, be_bytes(source as nat, 6))
}

/// The destination link address of a frame.
pub fn destination_of(frame: &[u8]) -> (r: u64)
    requires
        frame@.len() >= ETHERNET_HEADER_LEN,
    ensures
        r == eth_destination(frame@),
{
    read_be(frame, 0, 6)
}

/// The source link address of a frame.
pub fn source_of(frame: &[u8]) -> (r: u64)
    requires
        frame@.len() >= ETHERNET_HEADER_LEN,
    ensures
        r == eth_source(frame@),
{
    read_be(frame, 6, 6)
}

/// The EtherType of a frame.
pub fn ethertype_of(frame: &[u8]) -> (r: u16)
    requires
        frame@.len() >= ETHERNET_HEADER_LEN,
    ensures
        r == eth_type(frame@),
{
    read_u16(frame, 12)
}

/// A copy of `frame` whose link addresses are `source` and `destination`
/// (their 48 low-order bits); EtherType and payload are unchanged.
pub fn readdress(frame: &[u8], source: u64, destination: u64) -> (r: Vec<u8>)
    requires
        frame@.len() >= ETHERNET_HEADER_LEN,
    ensures
        r@ == readdressed(frame@, source, destination),
{
    let mut out = copy_range(frame, 0, frame.len());
    assert(frame@.subrange(0, frame@.len() as int) =~= frame@);
    put_be(&mut out, 0, destination, 6);
    put_be(&mut out, 6, source, 6);
    out
}

/// A captured frame as a packet hook sees it, with the hook's two marks:
/// whether it asked for the frame to be dropped, and whether it replaced the payload.
#[derive(Clone)]
pub struct LuaEthernetPacket(pub Vec<u8>, pub bool, pub bool);

impl LuaEthernetPacket {
    /// Long enough for an Ethernet header.
    pub open spec fn wf(&self) -> bool {
        self.0@.len() >= ETHERNET_HEADER_LEN
    }

    /// An unmarked view of `packet`.
    pub fn new(packet: Vec<u8>) -> (r: LuaEthernetPacket)
        requires
            packet@.len() >= ETHERNET_HEADER_LEN,
        ensures
            r.wf(),
            r.0@ == packet@,
            !r.1,
            !r.2,
    {
        LuaEthernetPacket(packet, false, false)
    }

    /// Whether the hook asked for this frame to be dropped.
    pub fn dropped(&self) -> (r: bool)
        ensures
            r == self.1,
    {
        self.1
    }

    /// Whether the hook replaced this frame's payload.
    pub fn tampered(&self) -> (r: bool)
        ensures
            r == self.2,
    {
        self.2
    }

    /// Marks the frame as one to drop.
    pub fn drop(&mut self)
        ensures
            final(self).0@ == old(self).0@,
            final(self).1,
            final(self).2 == old(self).2,
    {
        self.1 = true;
    }

    /// The source link address.
    pub fn source(&self) -> (r: u64)
        requires
            self.wf(),
        ensures
            r == eth_source(self.0@),
    {
        source_of(&self.0)
    }

    /// The destination link address.
    pub fn destination(&self) -> (r: u64)
        requires
            self.wf(),
        ensures
            r == eth_destination(self.0@),
    {
        destination_of(&self.0)
    }

    /// The EtherType.
    pub fn ethertype(&self) -> (r: u16)
        requires
            self.wf(),
        ensures
            r == eth_type(self.0@),
    {
        ethertype_of(&self.0)
    }

    /// The size of the whole frame in bytes.
    pub fn size(&self) -> (r: usize)
        ensures
            r == self.0@.len(),
    {
        self.0.len()
    }

    /// A copy of what follows the Ethernet header.
    pub fn payload(&self) -> (r: LuaBinary)
        requires
            self.wf(),
        ensures
            r.0@ == eth_payload(self.0@),
    {
        LuaBinary(copy_range(&self.0, ETHERNET_HEADER_LEN, self.0.len()))
    }

    /// The IPv4 packet this frame carries: `Some` when the EtherType is IPv4
    /// and the payload is long enough for an IPv4 header.
    pub fn as_ipv4(&self) -> (r: Option<LuaIpv4Packet>)
        requires
            self.wf(),
        ensures
            r is Some <==> (eth_type(self.0@) == ETHERTYPE_IPV4 && eth_payload(self.0@).len() >= 20),
            r matches Some(p) ==> p.0@ == eth_payload(self.0@) && p.wf(),
    {
        if ethertype_of(&self.0) == ETHERTYPE_IPV4 && self.0.len() - ETHERNET_HEADER_LEN >= 20 {
            Some(LuaIpv4Packet(copy_range(&self.0, ETHERNET_HEADER_LEN, self.0.len())))
        } else {
            None
        }
    }

    /// Replaces the payload with `ipv4`, keeping the Ethernet header, and marks
    /// the frame as tampered.
    pub fn set_payload(&mut self, ipv4: &LuaIpv4Packet)
        requires
            old(self).wf(),
        ensures
            final(self).wf(),
            final(self).0@ == old(self).0@.subrange(0, 14) + ipv4.0@,
            final(self).1 == old(self).1,
            final(self).2,
    {
        let mut out = copy_range(&self.0, 0, ETHERNET_HEADER_LEN);
        append_bytes(&mut out, &ipv4.0);
        self.0 = out;
        self.2 = true;
    }
}

} // verus!
