use harpy::arp::{ARPController, ARP_REPLY, ARP_REQUEST, BROADCAST_MAC};
use harpy::quic::{QUICInteger, QUIC};
use harpy::relay::{EngineResult, HookError, Relay, RelayAction};
use harpy::sink::Sink;
use harpy::types::binary::LuaBinary;
use harpy::types::ethernet::LuaEthernetPacket;
use harpy::types::ipv4::LuaIpv4Packet;
use harpy::util::checksum;

const OWN_MAC: u64 = 0x0a00_0000_0003;
const VICTIM_MAC: u64 = 0x0a00_0000_0001;
const GATEWAY_MAC: u64 = 0x0a00_0000_0002;
const OTHER_MAC: u64 = 0x0a00_0000_0009;
const OWN_IP: u32 = 0xc0a8_0005;
const VICTIM_IP: u32 = 0xc0a8_000a;
const GATEWAY_IP: u32 = 0xc0a8_0001;
const REMOTE_IP: u32 = 0x0808_0808;

fn eth(dst: u64, src: u64, ethertype: u16, payload: &[u8]) -> Vec<u8> {
    let mut f = Vec::new();
    f.extend_from_slice(&dst.to_be_bytes()[2..]);
    f.extend_from_slice(&src.to_be_bytes()[2..]);
    f.extend_from_slice(&ethertype.to_be_bytes());
    f.extend_from_slice(payload);
    f
}

fn ipv4(src: u32, dst: u32, protocol: u8, payload: &[u8]) -> Vec<u8> {
    let mut p = vec![0x45, 0, 0, 0, 0x12, 0x34, 0x40, 0, 64, protocol, 0, 0];
    p.extend_from_slice(&src.to_be_bytes());
    p.extend_from_slice(&dst.to_be_bytes());
    let total = (20 + payload.len()) as u16;
    p[2..4].copy_from_slice(&total.to_be_bytes());
    p.extend_from_slice(payload);
    p
}

fn relay(hooked: bool) -> Relay {
    Relay {
        arp: ARPController::new(OWN_MAC, OWN_IP),
        gateway_ip: GATEWAY_IP,
        gateway_mac: GATEWAY_MAC,
        victim_ip: VICTIM_IP,
        victim_mac: VICTIM_MAC,
        all: false,
        hooked,
    }
}

fn transmitted(actions: &[RelayAction]) -> Vec<Vec<u8>> {
    actions
        .iter()
        .filter_map(|a| match a {
            RelayAction::Transmit(f) => Some(f.clone()),
            RelayAction::Pause(_) => None,
        })
        .collect()
}

#[test]
fn rewritten_header_validates_to_zero() {
    let mut p = LuaIpv4Packet(ipv4(VICTIM_IP, REMOTE_IP, 17, &[1, 2, 3]));
    assert!(p.set_binary_payload(&LuaBinary(vec![9, 8, 7, 6, 5])));
    assert_eq!(p.0.len(), 25);
    assert_eq!(&p.0[2..4], &[0, 25]);
    assert_eq!(&p.0[20..], &[9, 8, 7, 6, 5]);
    assert_ne!(&p.0[10..12], &[0, 0]);
    assert_eq!(checksum(&p.0[..20]), 0);
}

#[test]
fn checksum_exact_values() {
    assert_eq!(checksum(&[]), 0xffff);
    assert_eq!(checksum(&[0x01]), 0xfeff);
    assert_eq!(checksum(&[0xff, 0xff]), 0x0000);
    assert_eq!(checksum(&[0xff, 0xff, 0x00, 0x01]), 0xfffe);
    assert_eq!(checksum(&[0x45, 0x00, 0x00]), 0xbaff);
}

#[test]
fn varint_round_trip_every_class() {
    for (length, value) in [(1u8, 63u64), (2, 0x3fff), (4, 0x3fff_ffff), (8, 0x3fff_ffff_ffff_ffff), (2, 1241), (4, 7)] {
        let q = QUICInteger { length, value };
        let bytes = q.to_binary();
        assert_eq!(bytes.len(), length as usize);
        assert_eq!(QUICInteger::parse(&bytes), Ok(q));
    }
}

#[test]
fn varint_known_encodings() {
    let cases: [(&[u8], u8, u64); 4] = [
        (&[0xc2, 0x19, 0x7c, 0x5e, 0xff, 0x14, 0xe8, 0x8c], 8, 151_288_809_941_952_652),
        (&[0x9d, 0x7f, 0x3e, 0x7d], 4, 494_878_333),
        (&[0x7b, 0xbd], 2, 15_293),
        (&[0x25], 1, 37),
    ];
    for (bytes, length, value) in cases {
        assert_eq!(QUICInteger::parse(bytes), Ok(QUICInteger { length, value }));
        assert_eq!(QUICInteger { length, value }.to_binary(), bytes.to_vec());
    }
    assert_eq!(QUICInteger { length: 4, value: 0x0102_0304 }.to_binary(), vec![0x81, 0x02, 0x03, 0x04]);
}

#[test]
fn spoof_table_grows_with_every_call() {
    let mut arp = ARPController::new(OWN_MAC, OWN_IP);
    let mut sink = Sink::new(1500);
    assert!(arp.spoof_table().is_empty());
    arp.spoof(&mut sink, GATEWAY_IP, OWN_MAC, VICTIM_IP, VICTIM_MAC);
    assert_eq!(arp.spoof_table(), &vec![VICTIM_IP]);
    arp.spoof(&mut sink, VICTIM_IP, OWN_MAC, GATEWAY_IP, GATEWAY_MAC);
    assert_eq!(arp.spoof_table(), &vec![VICTIM_IP, GATEWAY_IP]);
    arp.spoof(&mut sink, GATEWAY_IP, OWN_MAC, VICTIM_IP, VICTIM_MAC);
    assert_eq!(arp.spoof_table().len(), 3);
    assert!(arp.is_spoofed(VICTIM_IP) && arp.is_spoofed(GATEWAY_IP));
    assert!(!arp.is_spoofed(REMOTE_IP));
    let first = sink.next_outbound().unwrap();
    assert_eq!(first, ARPController::build_arp_packet(OWN_MAC, VICTIM_MAC, OWN_MAC, GATEWAY_IP, VICTIM_MAC, VICTIM_IP, ARP_REPLY));
    let second = sink.next_outbound().unwrap();
    assert_eq!(second, ARPController::build_arp_packet(OWN_MAC, GATEWAY_MAC, OWN_MAC, VICTIM_IP, GATEWAY_MAC, GATEWAY_IP, ARP_REPLY));
    assert!(sink.next_outbound().is_some());
    assert!(sink.next_outbound().is_none());
}

#[test]
fn victim_traffic_goes_to_gateway() {
    let r = relay(false);
    let frame = eth(OWN_MAC, VICTIM_MAC, 0x0800, &ipv4(VICTIM_IP, REMOTE_IP, 6, &[0; 20]));
    let out = transmitted(&r.decide(&frame, EngineResult::Continue));
    assert_eq!(out.len(), 1);
    assert_eq!(&out[0][0..6], &GATEWAY_MAC.to_be_bytes()[2..]);
    assert_eq!(&out[0][6..12], &OWN_MAC.to_be_bytes()[2..]);
    assert_eq!(&out[0][12..], &frame[12..]);
}

#[test]
fn gateway_traffic_goes_to_victim() {
    let r = relay(false);
    let frame = eth(OWN_MAC, GATEWAY_MAC, 0x0800, &ipv4(REMOTE_IP, VICTIM_IP, 17, &[0; 8]));
    let out = transmitted(&r.decide(&frame, EngineResult::Continue));
    assert_eq!(out.len(), 1);
    assert_eq!(&out[0][0..6], &VICTIM_MAC.to_be_bytes()[2..]);
    assert_eq!(&out[0][6..12], &OWN_MAC.to_be_bytes()[2..]);
    assert_eq!(&out[0][12..], &frame[12..]);
}

#[test]
fn unrelated_traffic_is_absorbed() {
    let r = relay(false);
    let to_me = eth(OWN_MAC, VICTIM_MAC, 0x0800, &ipv4(VICTIM_IP, OWN_IP, 6, &[0; 20]));
    assert!(r.decide(&to_me, EngineResult::Continue).is_empty());
    let stranger = eth(OWN_MAC, OTHER_MAC, 0x0800, &ipv4(REMOTE_IP, VICTIM_IP, 6, &[0; 20]));
    assert!(r.decide(&stranger, EngineResult::Continue).is_empty());
    let gateway_elsewhere = eth(OWN_MAC, GATEWAY_MAC, 0x0800, &ipv4(REMOTE_IP, REMOTE_IP, 6, &[0; 20]));
    assert!(r.decide(&gateway_elsewhere, EngineResult::Continue).is_empty());
    let truncated = eth(OWN_MAC, VICTIM_MAC, 0x0800, &[0x45, 0, 0]);
    assert!(r.decide(&truncated, EngineResult::Continue).is_empty());
}

#[test]
fn both_subscribers_see_every_frame_in_order() {
    let mut sink = Sink::new(1500);
    let a = sink.add_rx();
    let b = sink.add_rx();
    assert_ne!(a, b);
    let frames = [vec![1u8, 2, 3], vec![4u8], vec![5u8, 6]];
    for f in &frames {
        sink.publish(f);
    }
    for f in &frames {
        assert_eq!(sink.recv(a).as_ref(), Some(f));
    }
    assert_eq!(sink.recv(a), None);
    for f in &frames {
        assert_eq!(sink.recv(b).as_ref(), Some(f));
    }
    assert_eq!(sink.recv(b), None);
    let late = sink.add_rx();
    assert_eq!(sink.recv(late), None);
    sink.publish(&[7]);
    assert_eq!(sink.recv(a), Some(vec![7]));
    assert_eq!(sink.recv(b), Some(vec![7]));
    assert_eq!(sink.recv(late), Some(vec![7]));
}

#[test]
fn hook_verdicts_decide_transmissions() {
    let r = relay(true);
    let frame = eth(OWN_MAC, VICTIM_MAC, 0x0800, &ipv4(VICTIM_IP, REMOTE_IP, 6, &[0; 20]));
    assert!(r.wants_hook(&frame));

    assert!(r.decide(&frame, EngineResult::Drop).is_empty());

    let replacement = eth(OWN_MAC, VICTIM_MAC, 0x0800, &ipv4(VICTIM_IP, REMOTE_IP, 17, &[7; 12]));
    let out = transmitted(&r.decide(&frame, EngineResult::Tamper(replacement.clone())));
    assert_eq!(out.len(), 1);
    assert_eq!(&out[0][12..], &replacement[12..]);

    let failed = EngineResult::from_hook(Err(HookError));
    assert!(matches!(failed, EngineResult::Continue));
    let out = transmitted(&r.decide(&frame, failed));
    assert_eq!(out.len(), 1);
    assert_eq!(&out[0][12..], &frame[12..]);

    let mut marked = LuaEthernetPacket::new(frame.clone());
    marked.drop();
    assert!(matches!(EngineResult::from_hook(Ok(Some(marked))), EngineResult::Drop));
    assert!(matches!(EngineResult::from_hook(Ok(None)), EngineResult::Continue));
    let mut changed = LuaEthernetPacket::new(frame.clone());
    changed.set_payload(&LuaIpv4Packet(ipv4(VICTIM_IP, REMOTE_IP, 17, &[1; 8])));
    match EngineResult::from_hook(Ok(Some(changed))) {
        EngineResult::Tamper(x) => assert_eq!(&x[14..], &ipv4(VICTIM_IP, REMOTE_IP, 17, &[1; 8])[..]),
        _ => panic!("expected a tampered frame"),
    }
}

#[test]
fn hook_skips_traffic_out_of_scope() {
    let r = relay(true);
    let other = eth(OWN_MAC, OTHER_MAC, 0x0800, &ipv4(REMOTE_IP, GATEWAY_IP, 6, &[0; 20]));
    assert!(!r.wants_hook(&other));
    let mut everything = relay(true);
    everything.all = true;
    assert!(everything.wants_hook(&other));
    assert!(!relay(false).wants_hook(&other));
}

#[test]
fn arp_request_for_impersonated_address_gets_two_replies() {
    let mut r = relay(false);
    let mut sink = Sink::new(1500);
    r.arp.spoof(&mut sink, GATEWAY_IP, OWN_MAC, VICTIM_IP, VICTIM_MAC);
    r.arp.spoof(&mut sink, VICTIM_IP, OWN_MAC, GATEWAY_IP, GATEWAY_MAC);
    let request = ARPController::build_arp_packet(VICTIM_MAC, BROADCAST_MAC, VICTIM_MAC, VICTIM_IP, 0, GATEWAY_IP, ARP_REQUEST);
    let actions = r.decide(&request, EngineResult::Continue);
    assert_eq!(actions.len(), 3);
    let expected = ARPController::build_arp_packet(OWN_MAC, VICTIM_MAC, OWN_MAC, GATEWAY_IP, VICTIM_MAC, VICTIM_IP, ARP_REPLY);
    assert!(matches!(&actions[0], RelayAction::Transmit(f) if *f == expected));
    assert!(matches!(&actions[1], RelayAction::Pause(150)));
    assert!(matches!(&actions[2], RelayAction::Transmit(f) if *f == expected));

    let unlisted = ARPController::build_arp_packet(VICTIM_MAC, BROADCAST_MAC, VICTIM_MAC, VICTIM_IP, 0, REMOTE_IP, ARP_REQUEST);
    assert!(r.decide(&unlisted, EngineResult::Continue).is_empty());
    let stranger = ARPController::build_arp_packet(OTHER_MAC, BROADCAST_MAC, OTHER_MAC, REMOTE_IP, 0, VICTIM_IP, ARP_REQUEST);
    assert!(r.decide(&stranger, EngineResult::Continue).is_empty());
}

#[test]
fn quic_long_header_fields() {
    let bytes = [0xc5, 0, 0, 0, 1, 2, 0xaa, 0xbb, 1, 0xcc, 9, 9];
    let q = QUIC::parse(&bytes).unwrap();
    assert_eq!((q.header_form, q.fixed_bit, q.packet_type, q.reserved, q.packet_num_len), (1, 1, 0, 1, 1));
    assert_eq!(q.version, 1);
    assert_eq!(q.dst_connection_id, vec![0xaa, 0xbb]);
    assert_eq!(q.src_connection_id, vec![0xcc]);
    assert_eq!(q.payload, vec![9, 9]);
    assert!(QUIC::parse(&bytes[..9]).is_none());
    assert!(QUIC::parse(&[0xc0, 0, 0, 0, 1, 0]).is_none());
}
