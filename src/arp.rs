//! ARP: building requests and forged replies, reading ARP frames, the table
//! of addresses this process impersonates, and the retry policy of address
//! resolution.
use vstd::prelude::*;
use crate::sink::{Sink, SinkView};
use crate::types::ethernet::{eth_type, ethertype_of, ETHERTYPE_ARP, ETHERTYPE_IPV4};
use crate::wire::{be_bytes, be_value, copy_range, push_be, read_be, read_u16, read_u32};

verus! {

/// The ARP operation code of a request.
pub const ARP_REQUEST: u16 = 1;

/// The ARP operation code of a reply.
pub const ARP_REPLY: u16 = 2;

/// The link address every station listens to.
pub const BROADCAST_MAC: u64 = 0xffff_ffff_ffff;

/// Bytes in an Ethernet frame carrying an ARP packet for IPv4.
pub const ARP_FRAME_LEN: usize = 42;

/// How long a resolution waits for a reply before asking again, in milliseconds.
pub const RETRANSMIT_MS: u64 = 1250;

/// The Ethernet frame carrying an ARP packet for IPv4 over Ethernet with the
/// given link addresses, operation, and sender and target addresses.
pub open spec fn arp_frame(
    eth_src: u64,
    eth_dst: u64,
    src_mac: u64,
    src_ip: u32,
    dst_mac: u64,
    dst_ip: u32,
    operation: u16,
) -> Seq<u8> {
    be_bytes(eth_dst as nat, 6) + be_bytes(eth_src as nat, 6) + be_bytes(ETHERTYPE_ARP as nat, 2)
        + be_bytes(1, 2) + be_bytes(ETHERTYPE_IPV4 as nat, 2) + seq![6u8, 4u8] + be_bytes(
        operation as nat,
        2,
    ) + be_bytes(src_mac as nat, 6) + be_bytes(src_ip as nat, 4) + be_bytes(dst_mac as nat, 6)
        + be_bytes(dst_ip as nat, 4)
}

/// Whether frame `f` is an ARP frame long enough to read an ARP packet from.
pub open spec fn is_arp_frame(f: Seq<u8>) -> bool {
    f.len() >= ARP_FRAME_LEN && eth_type(f) == ETHERTYPE_ARP
}

/// The operation of the ARP packet in frame `f`.
pub open spec fn arp_operation(f: Seq<u8>) -> nat {
    be_value(f.subrange(20, 22))
}

/// The sender link address of the ARP packet in frame `f`.
pub open spec fn arp_sender_mac(f: Seq<u8>) -> nat {
    be_value(f.subrange(22, 28))
}

/// The sender protocol address of the ARP packet in frame `f`.
pub open spec fn arp_sender_ip(f: Seq<u8>) -> nat {
    be_value(f.subrange(28, 32))
}

/// The target protocol address of the ARP packet in frame `f`.
pub open spec fn arp_target_ip(f: Seq<u8>) -> nat {
    be_value(f.subrange(38, 42))
}

/// The fields of an ARP packet that the relay and the resolver read.
#[derive(Debug, Clone, Copy, PartialEq, Eq, Structural)]
pub struct ArpFields {
    pub operation: u16,
    pub sender_mac: u64,
    pub sender_ip: u32,
    pub target_ip: u32,
}

/// Reads the ARP packet of a frame; `None` when the frame is not ARP or too short.
pub fn read_arp(frame: &[u8]) -> (r: Option<ArpFields>)
    ensures
        r is Some <==> is_arp_frame(frame@),
        r matches Some(a) ==> a.operation == arp_operation(frame@) && a.sender_mac
            == arp_sender_mac(frame@) && a.sender_ip == arp_sender_ip(frame@) && a.target_ip
            == arp_target_ip(frame@),
{
    if frame.len() < ARP_FRAME_LEN || ethertype_of(frame) != ETHERTYPE_ARP {
        return None;
    }
    Some(
        ArpFields {
            operation: read_u16(frame, 20),
            sender_mac: read_be(frame, 22, 6),
            sender_ip: read_u32(frame, 28),
            target_ip: read_u32(frame, 38),
        },
    )
}

/// The sequence of tables that `targets.len()` spoofs leave, starting from `table`.
pub open spec fn after_spoofs(table: Seq<u32>, targets: Seq<u32>) -> Seq<u32>
    decreases targets.len(),
{
    if targets.len() == 0 {
        table
    } else {
        after_spoofs(table, targets.drop_last()).push(targets.last())
    }
}

/// The spoof table only grows: after any run of spoofs it has one more entry
/// per call, keeps every entry it had, and holds every target passed.
pub proof fn lemma_spoof_table_grows(table: Seq<u32>, targets: Seq<u32>)
    ensures
        after_spoofs(table, targets).len() == table.len() + targets.len(),
        table.len() <= after_spoofs(table, targets).len(),
        forall|i: int| 0 <= i < table.len() ==> after_spoofs(table, targets)[i] == table[i],
        forall|t: u32| #[trigger] targets.contains(t) ==> after_spoofs(table, targets).contains(t),
    decreases targets.len(),
{
    if targets.len() > 0 {
        let init = targets.drop_last();
        lemma_spoof_table_grows(table, init);
        let after = after_spoofs(table, targets);
        assert forall|t: u32| #[trigger] targets.contains(t) implies after.contains(t) by {
            let k = choose|k: int| 0 <= k < targets.len() && targets[k] == t;
            if k == targets.len() - 1 {
                assert(after[after.len() - 1] == t);
            } else {
                assert(init[k] == t);
                assert(init.contains(t));
                let j = choose|j: int|
                    0 <= j < after_spoofs(table, init).len() && after_spoofs(table, init)[j] == t;
                assert(after[j] == t);
            }
        }
    }
}

/// The ARP side of this process: its own link and IPv4 addresses, and the
/// addresses it has claimed to victims so far.
pub struct ARPController {
    mac: u64,
    ip: u32,
    spoof_table: Vec<u32>,
}

impl ARPController {
    /// Builds an Ethernet frame carrying an ARP packet for IPv4 over Ethernet.
    pub fn build_arp_packet(
        eth_src: u64,
        eth_dst: u64,
        src_mac: u64,
        src_ip: u32,
        dst_mac: u64,
        dst_ip: u32,
        operation: u16,
    ) -> (r: Vec<u8>)
        ensures
            r@ == arp_frame(eth_src, eth_dst, src_mac, src_ip, dst_mac, dst_ip, operation),
            r@.len() == ARP_FRAME_LEN,
    {
        let mut f: Vec<u8> = Vec::new();
        push_be(&mut f, eth_dst, 6);
        push_be(&mut f, eth_src, 6);
        push_be(&mut f, ETHERTYPE_ARP as u64, 2);
        push_be(&mut f, 1, 2);
        push_be(&mut f, ETHERTYPE_IPV4 as u64, 2);
        f.push(6);
        f.push(4);
        push_be(&mut f, operation as u64, 2);
        push_be(&mut f, src_mac, 6);
        push_be(&mut f, src_ip as u64, 4);
        push_be(&mut f, dst_mac, 6);
        push_be(&mut f, dst_ip as u64, 4);
        assert(f@ =~= arp_frame(eth_src, eth_dst, src_mac, src_ip, dst_mac, dst_ip, operation));
        f
    }

    /// This interface's link address.
    pub closed spec fn own_mac(&self) -> u64 {
        self.mac
    }

    /// This interface's IPv4 address.
    pub closed spec fn own_ip(&self) -> u32 {
        self.ip
    }

    /// The victims told so far, in order.
    pub closed spec fn table(&self) -> Seq<u32> {
        self.spoof_table@
    }

    /// A controller for the interface with link address `mac` and IPv4 address
    /// `ip`, that has spoofed nobody yet.
    pub fn new(mac: u64, ip: u32) -> (r: ARPController)
        ensures
            r.own_mac() == mac,
            r.own_ip() == ip,
            r.table() == Seq::<u32>::empty(),
    {
        ARPController { mac, ip, spoof_table: Vec::new() }
    }

    /// This interface's link address.
    pub fn mac(&self) -> (r: u64)
        ensures
            r == self.own_mac(),
    {
        self.mac
    }

    /// This interface's IPv4 address.
    pub fn ip(&self) -> (r: u32)
        ensures
            r == self.own_ip(),
    {
        self.ip
    }

    /// The victims told so far, in order.
    pub fn spoof_table(&self) -> (r: &Vec<u32>)
        ensures
            r@ == self.table(),
    {
        &self.spoof_table
    }

    /// Whether `ip` has been spoofed to some victim.
    pub fn is_spoofed(&self, ip: u32) -> (r: bool)
        ensures
            r == self.table().contains(ip),
    {
        let n = self.spoof_table.len();
        let mut i: usize = 0;
        while i < n
            invariant
                n == self.spoof_table@.len(),
                i <= n,
                forall|k: int| 0 <= k < i ==> self.spoof_table@[k] != ip,
            decreases n - i,
        {
            if self.spoof_table[i] == ip {
                return true;
            }
            i = i + 1;
        }
        false
    }

    /// Tells `target` (at `target_mac`) that `source` is at `source_mac` with a
    /// forged ARP reply sent straight to it, and records `target` in the spoof table.
    pub fn spoof(
        &mut self,
        sink: &mut Sink,
        source: u32,
        source_mac: u64,
        target: u32,
        target_mac: u64,
    )
        ensures
            final(self).own_mac() == old(self).own_mac(),
            final(self).own_ip() == old(self).own_ip(),
            final(self).table() == old(self).table().push(target),
            final(self).table() == after_spoofs(old(self).table(), seq![target]),
            final(sink)@ == (SinkView {
                outbound: old(sink)@.outbound.push(
                    arp_frame(
                        source_mac,
                        target_mac,
                        source_mac,
                        source,
                        target_mac,
                        target,
                        ARP_REPLY,
                    ),
                ),
                ..old(sink)@
            }),
    {
        let packet = ARPController::build_arp_packet(
            source_mac,
            target_mac,
            source_mac,
            source,
            target_mac,
            target,
            ARP_REPLY,
        );
        self.spoof_table.push(target);
        sink.send(packet);
        proof {
            let t0 = old(self).table();
            assert(seq![target].drop_last() =~= Seq::<u32>::empty());
            assert(after_spoofs(t0, Seq::<u32>::empty()) == t0);
            assert(after_spoofs(t0, seq![target]) == after_spoofs(t0, seq![target].drop_last()).push(
                target,
            ));
        }
    }

    /// The request asking who has `ip`: broadcast, from this interface.
    pub fn resolution_request(&self, ip: u32) -> (r: Vec<u8>)
        ensures
            r@ == arp_frame(self.own_mac(), BROADCAST_MAC, self.own_mac(), self.own_ip(), 0, ip, ARP_REQUEST),
    {
        ARPController::build_arp_packet(self.mac, BROADCAST_MAC, self.mac, self.ip, 0, ip, ARP_REQUEST)
    }

    /// Starts resolving `ip` at time `now_ms`: sends the request through `sink`
    /// and returns the session that waits for the reply.
    pub fn start_resolution(&self, sink: &mut Sink, ip: u32, now_ms: u64) -> (r: ResolutionSession)
        ensures
            r.target == ip,
            r.last_sent_ms == now_ms,
            r.request@ == arp_frame(self.own_mac(), BROADCAST_MAC, self.own_mac(), self.own_ip(), 0, ip, ARP_REQUEST),
            final(sink)@ == (SinkView { outbound: old(sink)@.outbound.push(r.request@), ..old(sink)@ }),
    {
        let request = self.resolution_request(ip);
        sink.send(copy_range(&request, 0, request.len()));
        assert(request@.subrange(0, request@.len() as int) =~= request@);
        ResolutionSession { target: ip, request, last_sent_ms: now_ms }
    }
}

/// One IP-to-link-address resolution in progress: the address asked for, the
/// request to repeat, and when it was last sent.
pub struct ResolutionSession {
    pub target: u32,
    pub request: Vec<u8>,
    pub last_sent_ms: u64,
}

/// Whether frame `f` is the awaited reply: an ARP reply sent by `target`.
pub open spec fn answers(f: Seq<u8>, target: u32) -> bool {
    is_arp_frame(f) && arp_operation(f) == ARP_REPLY && arp_sender_ip(f) == target
}

impl ResolutionSession {
    /// To be called at time `now_ms` before each wait for a frame: when more
    /// than the retransmission threshold has passed since the request was last
    /// sent, sends it again and restarts the timer. Returns whether it resent.
    pub fn poll(&mut self, sink: &mut Sink, now_ms: u64) -> (r: bool)
        ensures
            r == (now_ms > old(self).last_sent_ms && now_ms - old(self).last_sent_ms
                > RETRANSMIT_MS),
            final(self).target == old(self).target,
            final(self).request@ == old(self).request@,
            r ==> final(self).last_sent_ms == now_ms && final(sink)@ == (SinkView {
                outbound: old(sink)@.outbound.push(old(self).request@),
                ..old(sink)@
            }),
            !r ==> final(self).last_sent_ms == old(self).last_sent_ms && final(sink)@ == old(
                sink,
            )@,
    {
        if now_ms > self.last_sent_ms && now_ms - self.last_sent_ms > RETRANSMIT_MS {
            sink.send(copy_range(&self.request, 0, self.request.len()));
            assert(self.request@.subrange(0, self.request@.len() as int) =~= self.request@);
            self.last_sent_ms = now_ms;
            true
        } else {
            false
        }
    }

    /// The link address `frame` answers with, when it is the awaited reply.
    pub fn on_frame(&self, frame: &[u8]) -> (r: Option<u64>)
        ensures
            r is Some <==> answers(frame@, self.target),
            r matches Some(mac) ==> mac == arp_sender_mac(frame@),
    {
        match read_arp(frame) {
            Some(a) => {
                if a.operation == ARP_REPLY && a.sender_ip == self.target {
                    Some(a.sender_mac)
                } else {
                    None
                }
            },
            None => None,
        }
    }
}

} // verus!
