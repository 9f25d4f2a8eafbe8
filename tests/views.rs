use harpy::arp::{ARPController, ARP_REPLY, ARP_REQUEST, BROADCAST_MAC};
use harpy::quic::{get_quic_salt, Crypto, FromBinary, Initial, QUICInteger};
use harpy::sink::Sink;
use harpy::tls::Tls;
use harpy::types::binary::LuaBinary;
use harpy::types::ethernet::{readdress, LuaEthernetPacket};
use harpy::types::ipv4::LuaIpv4Packet;
use harpy::types::tcp::LuaTcpPacket;
use harpy::types::tls::LuaTls;
use harpy::types::udp::LuaUdpPacket;
use harpy::util::checksum;

fn ipv4(src: u32, dst: u32, protocol: u8, payload: &[u8]) -> Vec<u8> {
    let mut p = vec![0x45, 0, 0, 0, 0x12, 0x34, 0x40, 0, 64, protocol, 0, 0];
    p.extend_from_slice(&src.to_be_bytes());
    p.extend_from_slice(&dst.to_be_bytes());
    let total = (20 + payload.len()) as u16;
    p[2..4].copy_from_slice(&total.to_be_bytes());
    p.extend_from_slice(payload);
    p
}

fn tcp(payload: &[u8]) -> Vec<u8> {
    let mut s = vec![0x1f, 0x90, 0x01, 0xbb, 0, 0, 0, 1, 0, 0, 0, 2, 0x50, 0x18, 0x04, 0x00, 0xab, 0xcd, 0, 0];
    s.extend_from_slice(payload);
    s
}

fn client_hello_record() -> Vec<u8> {
    let mut body = vec![0x03, 0x03];
    body.extend_from_slice(&[0x11; 32]);
    body.push(0);
    body.extend_from_slice(&[0x00, 0x02, 0x13, 0x01]);
    body.extend_from_slice(&[0x01, 0x00]);
    let mut ext = vec![0x00, 0x00, 0x00, 0x10, 0x00, 0x0e, 0x00, 0x00, 0x0b];
    ext.extend_from_slice(b"example.com");
    ext.extend_from_slice(&[0x00, 0x0d, 0x00, 0x04, 0x00, 0x02, 0x04, 0x03]);
    body.extend_from_slice(&(ext.len() as u16).to_be_bytes());
    body.extend_from_slice(&ext);
    let mut hs = vec![0x01, 0x00];
    hs.extend_from_slice(&(body.len() as u16).to_be_bytes());
    hs.extend_from_slice(&body);
    let mut rec = vec![0x16, 0x03, 0x01];
    rec.extend_from_slice(&(hs.len() as u16).to_be_bytes());
    rec.extend_from_slice(&hs);
    rec
}

#[test]
fn ethernet_view_fields() {
    let mut frame = vec![1, 2, 3, 4, 5, 6, 7, 8, 9, 10, 11, 12, 0x08, 0x00];
    frame.extend_from_slice(&ipv4(0x0a000001, 0x0a000002, 6, &tcp(&[])));
    let p = LuaEthernetPacket::new(frame.clone());
    assert!(!p.dropped() && !p.tampered());
    assert_eq!(p.destination(), 0x0102_0304_0506);
    assert_eq!(p.source(), 0x0708_090a_0b0c);
    assert_eq!(p.ethertype(), 0x0800);
    assert_eq!(p.size(), frame.len());
    assert_eq!(p.payload().0, frame[14..].to_vec());
    let ip = p.as_ipv4().unwrap();
    assert_eq!(ip.source(), 0x0a000001);
    assert_eq!(ip.destination(), 0x0a000002);
    assert_eq!(ip.protocol(), 6);
    assert!(ip.as_udp().is_none());
    let t = ip.as_tcp().unwrap();
    assert_eq!(t.source_port(), 8080);
    assert_eq!(t.destination_port(), 443);
    assert_eq!(t.sequence(), 1);
    assert_eq!(t.acknowledgement(), 2);
    assert_eq!(t.flags(), 0x18);
    assert_eq!(t.window(), 1024);
    assert_eq!(t.checksum(), 0xabcd);
    assert_eq!(t.urgent(), 0);
}

#[test]
fn non_ipv4_frames_have_no_ipv4_view() {
    let arp = ARPController::build_arp_packet(1, BROADCAST_MAC, 1, 2, 0, 3, ARP_REQUEST);
    assert!(LuaEthernetPacket::new(arp).as_ipv4().is_none());
    let short = vec![0u8, 0, 0, 0, 0, 0, 0, 0, 0, 0, 0, 0, 0x08, 0x00, 0x45];
    assert!(LuaEthernetPacket::new(short).as_ipv4().is_none());
}

#[test]
fn readdress_changes_only_link_addresses() {
    let mut frame = vec![0u8; 12];
    frame.extend_from_slice(&[0x08, 0x00, 1, 2, 3]);
    let out = readdress(&frame, 0x0000_0000_00ff, 0xaabb_ccdd_eeff);
    assert_eq!(out, vec![0xaa, 0xbb, 0xcc, 0xdd, 0xee, 0xff, 0, 0, 0, 0, 0, 0xff, 0x08, 0x00, 1, 2, 3]);
}

#[test]
fn tcp_payload_gets_pseudo_header_checksum() {
    let src = 0xc0a8_0001u32;
    let dst = 0xc0a8_00c7u32;
    let mut ip = LuaIpv4Packet(ipv4(src, dst, 6, &tcp(&[])));
    let seg = LuaTcpPacket(tcp(b"hello"));
    assert!(ip.set_tcp_payload(&seg));
    assert_eq!(ip.0.len(), 45);
    assert_eq!(checksum(&ip.0[..20]), 0);
    let mut covered = Vec::new();
    covered.extend_from_slice(&src.to_be_bytes());
    covered.extend_from_slice(&dst.to_be_bytes());
    covered.extend_from_slice(&[0, 6, 0, 25]);
    covered.extend_from_slice(&ip.0[20..]);
    assert_eq!(checksum(&covered), 0);
    assert_ne!(&ip.0[36..38], &[0xab, 0xcd]);
    assert_eq!(&ip.0[40..], b"hello");
}

#[test]
fn udp_payload_checksum_is_zero() {
    let mut ip = LuaIpv4Packet(ipv4(1, 2, 17, &[0; 8]));
    let mut u = LuaUdpPacket(vec![0x00, 0x35, 0x13, 0x88, 0x00, 0x08, 0x12, 0x34]);
    assert!(u.set_payload(b"abc"));
    assert_eq!(u.0, vec![0x00, 0x35, 0x13, 0x88, 0x00, 0x0b, 0x00, 0x00, b'a', b'b', b'c']);
    assert_eq!(u.payload().0, b"abc".to_vec());
    u.0[6] = 0x77;
    assert!(ip.set_udp_payload(&u));
    assert_eq!(&ip.0[20..], &[0x00, 0x35, 0x13, 0x88, 0x00, 0x0b, 0x00, 0x00, b'a', b'b', b'c']);
    assert_eq!(checksum(&ip.0[..20]), 0);
    let ip2 = LuaIpv4Packet(ip.0.clone());
    let v = ip2.as_udp().unwrap();
    assert_eq!(v.source_port(), 53);
    assert_eq!(v.destination_port(), 5000);
    assert_eq!(v.checksum(), 0);
}

#[test]
fn oversized_payloads_are_refused() {
    let before = ipv4(1, 2, 17, &[0; 8]);
    let mut ip = LuaIpv4Packet(before.clone());
    assert!(!ip.set_binary_payload(&LuaBinary(vec![0; 65516])));
    assert_eq!(ip.0, before);
    assert!(ip.set_binary_payload(&LuaBinary(vec![0; 65515])));
    let mut u = LuaUdpPacket(vec![0; 8]);
    assert!(!u.set_payload(&vec![0; 65528]));
    assert_eq!(u.0, vec![0; 8]);
}

#[test]
fn ethernet_payload_replacement_marks_tampered() {
    let mut frame = vec![1u8; 12];
    frame.extend_from_slice(&[0x08, 0x00]);
    frame.extend_from_slice(&ipv4(1, 2, 17, &[0; 8]));
    let mut p = LuaEthernetPacket::new(frame.clone());
    let replacement = LuaIpv4Packet(ipv4(3, 4, 6, &tcp(&[])));
    p.set_payload(&replacement);
    assert!(p.tampered());
    assert!(!p.dropped());
    assert_eq!(&p.0[..14], &frame[..14]);
    assert_eq!(&p.0[14..], &replacement.0[..]);
    assert_eq!(p.size(), 54);
}

#[test]
fn tcp_payload_replacement_keeps_header() {
    let mut t = LuaTcpPacket(tcp(b"old payload"));
    t.set_payload(b"new");
    assert_eq!(t.0.len(), 23);
    assert_eq!(&t.0[..20], &tcp(&[])[..]);
    assert_eq!(t.payload().0, b"new".to_vec());
}

#[test]
fn tls_detection_and_fields() {
    let t = LuaTcpPacket(tcp(&[0x17, 0x03, 0x03, 0x00, 0x01, 0xff]));
    assert!(t.is_tls());
    let rec = t.as_tls().unwrap();
    assert_eq!(rec.content_type(), 0x17);
    assert_eq!(rec.version(), 0x0303);
    assert_eq!(rec.version_name(), "TLS 1.3");
    assert_eq!(rec.size(), 1);
    assert!(rec.as_client_hello().is_none());
    assert!(!LuaTcpPacket(tcp(&[0x15, 0x03])).is_tls());
    assert!(LuaTcpPacket(tcp(&[0x16, 0x03])).is_tls());
    assert!(LuaTcpPacket(tcp(&[0x16, 0x03])).as_tls().is_none());
    assert_eq!(LuaTls(vec![0x16, 0x02, 0x01, 0, 0]).version_name(), "SSL 3.0");
    assert_eq!(LuaTls(vec![0x16, 0x09, 0x09, 0, 0]).version_name(), "Unknown");
}

#[test]
fn client_hello_fields_are_read() {
    let rec = LuaTls(client_hello_record());
    let hello = rec.as_client_hello().unwrap();
    assert_eq!(hello.sni.as_deref(), Some("example.com"));
    assert_eq!(hello.ciphersuites, vec![0x1301]);
    assert_eq!(hello.signature_schemes, vec![0x0403]);
    let mut broken = client_hello_record();
    broken[0] = 0x17;
    assert!(LuaTls(broken).as_client_hello().is_none());
}

#[test]
fn tls_record_header() {
    let t = Tls::parse(&[0x16, 0x03, 0x01, 0x00, 0x02, 7, 8]).unwrap();
    assert_eq!((t.content_type, t.version, t.length), (0x16, 0x0301, 2));
    assert_eq!(t.payload, vec![7, 8]);
    assert!(Tls::parse(&[0x16, 0x03, 0x01, 0x00]).is_none());
}

#[test]
fn quic_detection_on_udp() {
    let mut d = vec![0, 1, 0, 2, 0, 0, 0, 0];
    d.extend_from_slice(&[0xc0, 0, 0, 0, 1, 1, 0xaa, 0, 5]);
    let u = LuaUdpPacket(d.clone());
    assert!(u.is_quic());
    let q = u.quic().unwrap();
    assert_eq!(q.version(), 1);
    assert_eq!(q.destination_cid(), vec![0xaa]);
    assert_eq!(q.source_cid(), Vec::<u8>::new());
    d[8] = 0xc1;
    assert!(LuaUdpPacket(d.clone()).is_quic());
    assert!(LuaUdpPacket(d.clone()).quic().is_none());
    d[8] = 0x40;
    assert!(!LuaUdpPacket(d).is_quic());
    assert!(!LuaUdpPacket(vec![0; 8]).is_quic());
}

#[test]
fn varint_errors() {
    assert_eq!(QUICInteger::parse(&[]), Err(()));
    assert_eq!(QUICInteger::parse(&[0x80, 1, 2]), Err(()));
    let two = QUICInteger { length: 2, value: 300 };
    assert_eq!(u8::try_from(two), Err(()));
    assert_eq!(u16::try_from(two), Ok(300));
    assert_eq!(u32::try_from(two), Ok(300));
    assert_eq!(u64::try_from(two), Ok(300));
    assert_eq!(u16::try_from(QUICInteger { length: 4, value: 1 }), Err(()));
    assert_eq!(u32::try_from(QUICInteger { length: 8, value: 1 }), Err(()));
    assert_eq!(QUICInteger::from(7u8), QUICInteger { length: 1, value: 7 });
    assert_eq!(QUICInteger::from(7u16), QUICInteger { length: 2, value: 7 });
    assert_eq!(QUICInteger::from(7u32), QUICInteger { length: 4, value: 7 });
    assert_eq!(QUICInteger::from(7u64), QUICInteger { length: 8, value: 7 });
    assert_eq!(QUICInteger::max_length(), 8);
}

#[test]
fn initial_and_crypto_layouts() {
    let i = Initial::from_binary(&[0x02, 0xaa, 0xbb, 0x41, 0x00, 0x07, 1, 2]).unwrap();
    assert_eq!(i.token_len, QUICInteger { length: 1, value: 2 });
    assert_eq!(i.token, vec![0xaa, 0xbb]);
    assert_eq!(i.length, QUICInteger { length: 2, value: 256 });
    assert_eq!(i.packet_num, QUICInteger { length: 1, value: 7 });
    assert_eq!(i.payload, vec![1, 2]);
    assert!(Initial::from_binary(&[0x00]).is_err());
    assert!(Initial::from_binary(&[0x05, 0xaa, 0xbb]).is_err());
    assert!(Initial::from_binary(&[0x00, 0x41]).is_err());
    let c = Crypto::parse(&[0x06, 0x00, 0x40, 0x03, 9, 9, 9]).unwrap();
    assert_eq!(c.frame_type, QUICInteger { length: 1, value: 6 });
    assert_eq!(c.offset, QUICInteger { length: 1, value: 0 });
    assert_eq!(c.length, QUICInteger { length: 2, value: 3 });
    assert_eq!(c.payload, vec![9, 9, 9]);
    assert!(Crypto::parse(&[]).is_err());
    assert!(Crypto::parse(&[0x06, 0x00]).is_err());
}

#[test]
fn quic_salts() {
    assert_eq!(get_quic_salt(1).unwrap()[0], 0x38);
    assert_eq!(get_quic_salt(0xff00001d).unwrap()[19], 0x99);
    assert_eq!(get_quic_salt(0xff00001b), get_quic_salt(0xff00001c));
    assert!(get_quic_salt(0xff00001b).is_some());
    assert!(get_quic_salt(2).is_none());
}

#[test]
fn binary_access_and_search() {
    let b = LuaBinary(b"hello world".to_vec());
    assert_eq!(b.len(), 11);
    assert_eq!(b.get(4), Some(b'o'));
    assert_eq!(b.get(11), None);
    assert!(b.contains(b"world"));
    assert!(b.contains(b"hello world"));
    assert!(b.contains(b""));
    assert!(!b.contains(b"worlds"));
    assert!(!b.contains(b"hello world!"));
}

#[test]
fn resolution_retries_until_reply() {
    let own_mac = 0x0a00_0000_0003u64;
    let arp = ARPController::new(own_mac, 0xc0a8_0005);
    let mut sink = Sink::new(1500);
    let mut session = arp.start_resolution(&mut sink, 0xc0a8_0001, 1000);
    let request = sink.next_outbound().unwrap();
    assert_eq!(request, ARPController::build_arp_packet(own_mac, BROADCAST_MAC, own_mac, 0xc0a8_0005, 0, 0xc0a8_0001, ARP_REQUEST));
    assert!(!session.poll(&mut sink, 2250));
    assert!(sink.next_outbound().is_none());
    assert!(session.poll(&mut sink, 2251));
    assert_eq!(sink.next_outbound().unwrap(), request);
    assert!(!session.poll(&mut sink, 3000));
    assert!(!session.poll(&mut sink, 500));
    let reply = ARPController::build_arp_packet(0x0a00_0000_0002, own_mac, 0x0a00_0000_0002, 0xc0a8_0001, own_mac, 0xc0a8_0005, ARP_REPLY);
    assert_eq!(session.on_frame(&reply), Some(0x0a00_0000_0002));
    let other = ARPController::build_arp_packet(0x0a00_0000_0009, own_mac, 0x0a00_0000_0009, 0xc0a8_0009, own_mac, 0xc0a8_0005, ARP_REPLY);
    assert_eq!(session.on_frame(&other), None);
    assert_eq!(session.on_frame(&request), None);
    assert_eq!(arp.mac(), own_mac);
    assert_eq!(arp.ip(), 0xc0a8_0005);
    assert_eq!(sink.mtu(), 1500);
}

#[test]
fn hook_integers_become_bytes() {
    let mut b = LuaBinary(vec![1]);
    b.push_integer(255);
    b.push_integer(-1);
    b.push_integer(7);
    assert_eq!(b.0, vec![1, 0xff, 0xff, 7]);
    b.push_integer(0x0102);
    assert_eq!(b.0.len(), 12);
    assert_eq!(&b.0[4..], &0x0102i64.to_ne_bytes()[..]);
}
