use sniffer::addr::IpAddress;
use sniffer::filter::Filter;
use sniffer::filter::Flag;
use sniffer::packet::DecodeError;
use sniffer::packet::DecodeReason;
use sniffer::packet::PacketHeader;
use sniffer::packet::ParsedPacket;

fn ether(dest: [u8; 6], src: [u8; 6], ethertype: u16) -> Vec<u8> {
    let mut f = Vec::new();
    f.extend_from_slice(&dest);
    f.extend_from_slice(&src);
    f.push((ethertype >> 8) as u8);
    f.push((ethertype & 0xff) as u8);
    f
}

fn ipv4(proto: u8, src: [u8; 4], dst: [u8; 4]) -> Vec<u8> {
    let mut h = vec![
        0x45, 0x00, // version 4, ihl 5, tos 0
        0x00, 0x28, // total length 40
        0x12, 0x34, // identification
        0x40, 0x00, // flags, fragment offset
        0x40, proto, // ttl 64, protocol
        0xbe, 0xef, // checksum
    ];
    h.extend_from_slice(&src);
    h.extend_from_slice(&dst);
    h
}

fn tcp(sport: u16, dport: u16) -> Vec<u8> {
    let mut h = Vec::new();
    h.extend_from_slice(&sport.to_be_bytes());
    h.extend_from_slice(&dport.to_be_bytes());
    h.extend_from_slice(&1u32.to_be_bytes()); // sequence number
    h.extend_from_slice(&2u32.to_be_bytes()); // acknowledgement number
    h.push(0x50); // data offset 5
    h.push(0x18); // flags: PSH, ACK
    h.extend_from_slice(&0xffffu16.to_be_bytes()); // window
    h.extend_from_slice(&0xcafeu16.to_be_bytes()); // checksum
    h.extend_from_slice(&0u16.to_be_bytes()); // urgent pointer
    h
}

fn tcp_frame(src: [u8; 4], dst: [u8; 4], sport: u16, dport: u16) -> Vec<u8> {
    let mut f = ether([0xaa; 6], [0x01, 0x02, 0x03, 0x04, 0x05, 0x06], 0x0800);
    f.extend_from_slice(&ipv4(6, src, dst));
    f.extend_from_slice(&tcp(sport, dport));
    f
}

#[test]
fn decodes_ethernet_ipv4_tcp() {
    let frame = tcp_frame([127, 0, 0, 1], [10, 0, 0, 2], 9000, 443);
    let pac = ParsedPacket::from_packet(&frame, frame.len() as u32, "12.5".to_string()).unwrap();
    assert_eq!(pac.layers.len(), 3);
    assert!(matches!(pac.layers[0], PacketHeader::Ether(_)));
    assert!(matches!(pac.layers[1], PacketHeader::Ipv4(_)));
    assert!(matches!(pac.layers[2], PacketHeader::Tcp(_)));
    assert_eq!(pac.src_ip, IpAddress::V4 { a: 127, b: 0, c: 0, d: 1 });
    assert_eq!(pac.dest_ip, IpAddress::V4 { a: 10, b: 0, c: 0, d: 2 });
    assert_eq!(pac.src_port, 9000);
    assert_eq!(pac.dest_port, 443);
    assert_eq!(pac.length, frame.len() as u32);
    assert_eq!(pac.ts, "12.5");
    if let PacketHeader::Ether(eh) = &pac.layers[0] {
        assert_eq!(eh.dest_mac, vec![0xaa; 6]);
        assert_eq!(eh.source_mac, vec![0x01, 0x02, 0x03, 0x04, 0x05, 0x06]);
        assert_eq!(eh.ethertype, 0x0800);
    }
    if let PacketHeader::Ipv4(ih) = &pac.layers[1] {
        assert_eq!(ih.version, 4);
        assert_eq!(ih.ihl, 5);
        assert_eq!(ih.total_len, 40);
        assert_eq!(ih.ident, 0x1234);
        assert_eq!(ih.ttl, 64);
        assert_eq!(ih.protocol, 6);
        assert_eq!(ih.checksum, 0xbeef);
    }
    if let PacketHeader::Tcp(th) = &pac.layers[2] {
        assert_eq!(th.source_port, 9000);
        assert_eq!(th.dest_port, 443);
        assert_eq!(th.sequence_no, 1);
        assert_eq!(th.ack_no, 2);
        assert_eq!(th.data_offset, 5);
        assert_eq!(th.flags, 0x18);
        assert_eq!(th.window, 0xffff);
        assert_eq!(th.checksum, 0xcafe);
        assert_eq!(th.urgent_ptr, 0);
    }
}

#[test]
fn short_frames_fail_with_malformed() {
    for n in 0..14usize {
        let frame = vec![0u8; n];
        let r = ParsedPacket::from_packet(&frame, n as u32, String::new());
        assert_eq!(
            r,
            Err(DecodeError::Malformed(DecodeReason::TruncatedEthernet))
        );
    }
}

#[test]
fn unknown_ether_type_fails_closed() {
    let frame = ether([0xaa; 6], [0xbb; 6], 0x0806); // ARP
    let r = ParsedPacket::from_packet(&frame, frame.len() as u32, String::new());
    assert_eq!(
        r,
        Err(DecodeError::Malformed(DecodeReason::UnsupportedEtherType))
    );
}

#[test]
fn bad_ipv4_fails() {
    // version five in the IP header
    let mut frame = ether([0xaa; 6], [0xbb; 6], 0x0800);
    let mut ip = ipv4(6, [1, 2, 3, 4], [5, 6, 7, 8]);
    ip[0] = 0x55;
    frame.extend_from_slice(&ip);
    frame.extend_from_slice(&tcp(1, 2));
    let r = ParsedPacket::from_packet(&frame, frame.len() as u32, String::new());
    assert_eq!(r, Err(DecodeError::Malformed(DecodeReason::BadIpv4)));

    // truncated IP header
    let mut short = ether([0xaa; 6], [0xbb; 6], 0x0800);
    short.extend_from_slice(&[0x45, 0x00, 0x00]);
    let r = ParsedPacket::from_packet(&short, short.len() as u32, String::new());
    assert_eq!(r, Err(DecodeError::Malformed(DecodeReason::BadIpv4)));
}

#[test]
fn unsupported_transport_fails() {
    let mut frame = ether([0xaa; 6], [0xbb; 6], 0x0800);
    frame.extend_from_slice(&ipv4(47, [1, 2, 3, 4], [5, 6, 7, 8])); // GRE
    let r = ParsedPacket::from_packet(&frame, frame.len() as u32, String::new());
    assert_eq!(
        r,
        Err(DecodeError::Malformed(DecodeReason::UnsupportedTransport))
    );
}

#[test]
fn truncated_transport_headers_fail() {
    let mut t = ether([0xaa; 6], [0xbb; 6], 0x0800);
    t.extend_from_slice(&ipv4(6, [1, 2, 3, 4], [5, 6, 7, 8]));
    t.extend_from_slice(&[0x00, 0x01]);
    assert_eq!(
        ParsedPacket::from_packet(&t, t.len() as u32, String::new()),
        Err(DecodeError::Malformed(DecodeReason::BadTcp))
    );

    let mut u = ether([0xaa; 6], [0xbb; 6], 0x0800);
    u.extend_from_slice(&ipv4(17, [1, 2, 3, 4], [5, 6, 7, 8]));
    u.extend_from_slice(&[0x00, 0x01]);
    assert_eq!(
        ParsedPacket::from_packet(&u, u.len() as u32, String::new()),
        Err(DecodeError::Malformed(DecodeReason::BadUdp))
    );

    let mut i = ether([0xaa; 6], [0xbb; 6], 0x0800);
    i.extend_from_slice(&ipv4(1, [1, 2, 3, 4], [5, 6, 7, 8]));
    i.extend_from_slice(&[0x08, 0x00]);
    assert_eq!(
        ParsedPacket::from_packet(&i, i.len() as u32, String::new()),
        Err(DecodeError::Malformed(DecodeReason::BadIcmp))
    );
}

#[test]
fn decodes_udp_and_icmp() {
    let mut u = ether([0xaa; 6], [0xbb; 6], 0x0800);
    u.extend_from_slice(&ipv4(17, [1, 2, 3, 4], [5, 6, 7, 8]));
    u.extend_from_slice(&[0x00, 0x35, 0x14, 0xe9, 0x00, 0x08, 0x00, 0x00]); // 53 -> 5353
    let pac = ParsedPacket::from_packet(&u, u.len() as u32, String::new()).unwrap();
    assert_eq!(pac.src_port, 53);
    assert_eq!(pac.dest_port, 5353);
    assert!(matches!(pac.layers[2], PacketHeader::Udp(_)));

    let mut i = ether([0xaa; 6], [0xbb; 6], 0x0800);
    i.extend_from_slice(&ipv4(1, [1, 2, 3, 4], [5, 6, 7, 8]));
    i.extend_from_slice(&[0x08, 0x00, 0xab, 0xcd, 0x00, 0x00, 0x00, 0x00]); // echo request
    let pac = ParsedPacket::from_packet(&i, i.len() as u32, String::new()).unwrap();
    assert_eq!(pac.src_port, 0);
    assert_eq!(pac.dest_port, 0);
    match &pac.layers[2] {
        PacketHeader::ICMP(h) => {
            assert_eq!(h.kind, 8);
            assert_eq!(h.code, 0);
            assert_eq!(h.checksum, 0xabcd);
        }
        other => panic!("expected an ICMP layer, got {:?}", other),
    }
}

#[test]
fn decodes_ipv6_tcp() {
    let mut f = ether([0xaa; 6], [0xbb; 6], 0x86dd);
    let mut ip6 = vec![
        0x60, 0x00, 0x00, 0x00, // version 6, class 0, flow 0
        0x00, 0x14, // payload length 20
        0x06, 0x40, // next header TCP, hop limit 64
    ];
    let mut src = [0u8; 16];
    src[15] = 1; // ::1
    let mut dst = [0u8; 16];
    dst[0] = 0xfe;
    dst[1] = 0x80;
    dst[15] = 0x1a;
    ip6.extend_from_slice(&src);
    ip6.extend_from_slice(&dst);
    f.extend_from_slice(&ip6);
    f.extend_from_slice(&tcp(80, 50000));
    let pac = ParsedPacket::from_packet(&f, f.len() as u32, String::new()).unwrap();
    assert!(matches!(pac.layers[1], PacketHeader::Ipv6(_)));
    assert_eq!(
        pac.src_ip,
        IpAddress::V6 { g0: 0, g1: 0, g2: 0, g3: 0, g4: 0, g5: 0, g6: 0, g7: 1 }
    );
    assert_eq!(
        pac.dest_ip,
        IpAddress::V6 { g0: 0xfe80, g1: 0, g2: 0, g3: 0, g4: 0, g5: 0, g6: 0, g7: 0x1a }
    );
    assert_eq!(pac.src_port, 80);
    assert_eq!(pac.dest_port, 50000);
    let (s, d, sp, dp) = pac.meta();
    assert_eq!(s, "0:0:0:0:0:0:0:1");
    assert_eq!(d, "fe80:0:0:0:0:0:0:1a");
    assert_eq!(sp, 80);
    assert_eq!(dp, 50000);
}

#[test]
fn meta_formats_ipv4_addresses() {
    let frame = tcp_frame([127, 0, 0, 1], [10, 0, 0, 2], 9000, 443);
    let pac = ParsedPacket::from_packet(&frame, frame.len() as u32, String::new()).unwrap();
    let (s, d, sp, dp) = pac.meta();
    assert_eq!(s, "127.0.0.1");
    assert_eq!(d, "10.0.0.2");
    assert_eq!(sp, 9000);
    assert_eq!(dp, 443);
}

#[test]
fn decoded_packet_matches_full_filter() {
    let filter = Filter::from_str("ether sip|127.0.0.1 port|443").unwrap();
    let hit = tcp_frame([127, 0, 0, 1], [10, 0, 0, 2], 9000, 443);
    let pac = ParsedPacket::from_packet(&hit, hit.len() as u32, String::new()).unwrap();
    assert!(pac.contains(&filter));

    let other_port = tcp_frame([127, 0, 0, 1], [10, 0, 0, 2], 443, 9000);
    let pac = ParsedPacket::from_packet(&other_port, other_port.len() as u32, String::new()).unwrap();
    assert!(pac.contains(&filter));

    let wrong_src = tcp_frame([10, 0, 0, 9], [10, 0, 0, 2], 9000, 443);
    let pac = ParsedPacket::from_packet(&wrong_src, wrong_src.len() as u32, String::new()).unwrap();
    assert!(!pac.contains(&filter));
}

#[test]
fn signature_holds_all_attributes() {
    let frame = tcp_frame([127, 0, 0, 1], [10, 0, 0, 2], 9000, 443);
    let pac = ParsedPacket::from_packet(&frame, frame.len() as u32, String::new()).unwrap();
    let sig = Filter::from_packet(&pac);
    assert_eq!(
        sig.signature,
        vec![
            Flag::Sip(IpAddress::V4 { a: 127, b: 0, c: 0, d: 1 }),
            Flag::Dip(IpAddress::V4 { a: 10, b: 0, c: 0, d: 2 }),
            Flag::Sport(9000),
            Flag::Dport(443),
            Flag::ETHER,
            Flag::IP4,
            Flag::TCP,
        ]
    );
}

#[test]
fn to_flag_names_each_layer() {
    let frame = tcp_frame([127, 0, 0, 1], [10, 0, 0, 2], 9000, 443);
    let pac = ParsedPacket::from_packet(&frame, frame.len() as u32, String::new()).unwrap();
    assert_eq!(pac.layers[0].to_flag(), Flag::ETHER);
    assert_eq!(pac.layers[1].to_flag(), Flag::IP4);
    assert_eq!(pac.layers[2].to_flag(), Flag::TCP);
}

#[test]
fn ihl_with_options_is_honoured() {
    // an IPv4 header with ihl 6: one word of options before the TCP header
    let mut frame = ether([0xaa; 6], [0xbb; 6], 0x0800);
    let mut ip = ipv4(6, [1, 2, 3, 4], [5, 6, 7, 8]);
    ip[0] = 0x46;
    frame.extend_from_slice(&ip);
    frame.extend_from_slice(&[0x01, 0x01, 0x01, 0x01]); // options
    frame.extend_from_slice(&tcp(1234, 80));
    let pac = ParsedPacket::from_packet(&frame, frame.len() as u32, String::new()).unwrap();
    assert_eq!(pac.src_port, 1234);
    assert_eq!(pac.dest_port, 80);
}
