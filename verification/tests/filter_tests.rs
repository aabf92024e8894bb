use sniffer::addr::IpAddress;
use sniffer::filter::Filter;
use sniffer::filter::FilterParseError;
use sniffer::filter::Flag;
use sniffer::packet::ParsedPacket;

fn v4(a: u8, b: u8, c: u8, d: u8) -> IpAddress {
    IpAddress::V4 { a, b, c, d }
}

fn bare_packet(src_ip: IpAddress, dest_ip: IpAddress, src_port: u16, dest_port: u16) -> ParsedPacket {
    ParsedPacket {
        src_ip,
        src_port,
        dest_ip,
        dest_port,
        layers: Vec::new(),
        length: 0,
        ts: String::new(),
    }
}

#[test]
fn str_to_filter() {
    let filter = Filter {
        signature: vec![
            Flag::ETHER,
            Flag::Sip(v4(127, 0, 0, 1)),
            Flag::Port(443),
        ],
    };
    assert_eq!(
        Filter::from_str("ether sip|127.0.0.1 port|443").unwrap(),
        filter
    );
}

#[test]
fn tags_parse_case_insensitive() {
    assert_eq!(Flag::from_str("icmp").unwrap(), Flag::ICMP);
    assert_eq!(Flag::from_str("ICMP").unwrap(), Flag::ICMP);
    assert_eq!(Flag::from_str("Ip4").unwrap(), Flag::IP4);
    assert_eq!(Flag::from_str("ip6").unwrap(), Flag::IP6);
    assert_eq!(Flag::from_str("TCP").unwrap(), Flag::TCP);
    assert_eq!(Flag::from_str("udp").unwrap(), Flag::UDP);
    assert_eq!(Flag::from_str("Ether").unwrap(), Flag::ETHER);
}

#[test]
fn key_value_tokens_parse() {
    assert_eq!(Flag::from_str("port|443").unwrap(), Flag::Port(443));
    assert_eq!(Flag::from_str("PORT|0443").unwrap(), Flag::Port(443));
    assert_eq!(Flag::from_str("sport|65535").unwrap(), Flag::Sport(65535));
    assert_eq!(Flag::from_str("dport|0").unwrap(), Flag::Dport(0));
    assert_eq!(Flag::from_str("ip|10.0.0.2").unwrap(), Flag::Ip(v4(10, 0, 0, 2)));
    assert_eq!(Flag::from_str("sip|127.0.0.1").unwrap(), Flag::Sip(v4(127, 0, 0, 1)));
    assert_eq!(Flag::from_str("dip|255.255.255.255").unwrap(), Flag::Dip(v4(255, 255, 255, 255)));
    assert_eq!(
        Flag::from_str("ip|0:0:0:0:0:0:0:1").unwrap(),
        Flag::Ip(IpAddress::V6 { g0: 0, g1: 0, g2: 0, g3: 0, g4: 0, g5: 0, g6: 0, g7: 1 })
    );
    assert_eq!(
        Flag::from_str("sip|ABCD:0:1:2:3:4:5:6").unwrap(),
        Flag::Sip(IpAddress::V6 {
            g0: 0xabcd,
            g1: 0,
            g2: 1,
            g3: 2,
            g4: 3,
            g5: 4,
            g6: 5,
            g7: 6
        })
    );
}

#[test]
fn unknown_flags_are_rejected() {
    assert_eq!(
        Flag::from_str("bogus"),
        Err(FilterParseError::UnknownFlag("bogus".to_string()))
    );
    assert_eq!(
        Flag::from_str(""),
        Err(FilterParseError::UnknownFlag("".to_string()))
    );
    assert_eq!(
        Flag::from_str("zz|3"),
        Err(FilterParseError::UnknownFlag("zz|3".to_string()))
    );
}

#[test]
fn invalid_values_are_rejected() {
    assert_eq!(
        Flag::from_str("port|x"),
        Err(FilterParseError::InvalidValue("port|x".to_string()))
    );
    assert_eq!(
        Flag::from_str("port|70000"),
        Err(FilterParseError::InvalidValue("port|70000".to_string()))
    );
    assert_eq!(
        Flag::from_str("port|"),
        Err(FilterParseError::InvalidValue("port|".to_string()))
    );
    assert_eq!(
        Flag::from_str("sip|127.00.0.1"),
        Err(FilterParseError::InvalidValue("sip|127.00.0.1".to_string()))
    );
    assert_eq!(
        Flag::from_str("ip|256.0.0.1"),
        Err(FilterParseError::InvalidValue("ip|256.0.0.1".to_string()))
    );
    assert_eq!(
        Flag::from_str("ip|1.2.3"),
        Err(FilterParseError::InvalidValue("ip|1.2.3".to_string()))
    );
}

#[test]
fn filter_from_str_reports_first_bad_token() {
    assert_eq!(
        Filter::from_str("tcp nonsense port|443"),
        Err(FilterParseError::UnknownFlag("nonsense".to_string()))
    );
    assert_eq!(
        Filter::from_str("tcp port|many"),
        Err(FilterParseError::InvalidValue("port|many".to_string()))
    );
    assert!(Filter::from_str("").is_err());
}

#[test]
fn address_grammar_is_canonical() {
    // groups of an IPv6 address take one to four hexadecimal digits
    assert_eq!(
        Flag::from_str("ip|00ff:0:0:0:0:0:0:1").unwrap(),
        Flag::Ip(IpAddress::V6 { g0: 0xff, g1: 0, g2: 0, g3: 0, g4: 0, g5: 0, g6: 0, g7: 1 })
    );
    assert_eq!(
        Flag::from_str("ip|00001:0:0:0:0:0:0:0"),
        Err(FilterParseError::InvalidValue("ip|00001:0:0:0:0:0:0:0".to_string()))
    );
    // the compressed `::` form is not part of the grammar: all eight
    // groups are spelled out
    assert_eq!(
        Flag::from_str("ip|::1"),
        Err(FilterParseError::InvalidValue("ip|::1".to_string()))
    );
}

#[test]
fn consecutive_spaces_make_an_empty_token() {
    assert_eq!(
        Filter::from_str("tcp  udp"),
        Err(FilterParseError::UnknownFlag("".to_string()))
    );
}

#[test]
fn to_str_canonical_text() {
    assert_eq!(Flag::Port(443).to_str(), "port|443");
    assert_eq!(Flag::Sport(0).to_str(), "sport|0");
    assert_eq!(Flag::Dport(65535).to_str(), "dport|65535");
    assert_eq!(Flag::Ip(v4(10, 0, 0, 2)).to_str(), "ip|10.0.0.2");
    assert_eq!(Flag::Sip(v4(127, 0, 0, 1)).to_str(), "sip|127.0.0.1");
    assert_eq!(
        Flag::Dip(IpAddress::V6 { g0: 0xfe80, g1: 0, g2: 0, g3: 0, g4: 0, g5: 0, g6: 0, g7: 0x1a })
            .to_str(),
        "dip|fe80:0:0:0:0:0:0:1a"
    );
    assert_eq!(Flag::ICMP.to_str(), "icmp");
    assert_eq!(Flag::IP4.to_str(), "ip4");
    assert_eq!(Flag::IP6.to_str(), "ip6");
    assert_eq!(Flag::TCP.to_str(), "tcp");
    assert_eq!(Flag::UDP.to_str(), "udp");
    assert_eq!(Flag::ETHER.to_str(), "ether");
}

#[test]
fn flag_round_trips_through_text() {
    let flags = vec![
        Flag::Port(443),
        Flag::Sport(1),
        Flag::Dport(65535),
        Flag::Ip(v4(192, 168, 1, 20)),
        Flag::Sip(v4(0, 0, 0, 0)),
        Flag::Dip(IpAddress::V6 {
            g0: 0x2001,
            g1: 0xdb8,
            g2: 0,
            g3: 0,
            g4: 0,
            g5: 0,
            g6: 0,
            g7: 0x99,
        }),
        Flag::ICMP,
        Flag::IP4,
        Flag::IP6,
        Flag::TCP,
        Flag::UDP,
        Flag::ETHER,
    ];
    for f in flags {
        assert_eq!(Flag::from_str(&f.to_str()).unwrap(), f);
    }
}

#[test]
fn generic_port_matches_either_direction() {
    let filter = Filter::from_str("port|443").unwrap();
    let a = bare_packet(v4(1, 2, 3, 4), v4(5, 6, 7, 8), 9000, 443);
    let b = bare_packet(v4(1, 2, 3, 4), v4(5, 6, 7, 8), 443, 9000);
    let c = bare_packet(v4(1, 2, 3, 4), v4(5, 6, 7, 8), 9000, 8080);
    assert!(a.contains(&filter));
    assert!(b.contains(&filter));
    assert!(!c.contains(&filter));
}

#[test]
fn generic_ip_matches_either_direction() {
    let filter = Filter::from_str("ip|10.0.0.2").unwrap();
    let a = bare_packet(v4(10, 0, 0, 2), v4(5, 6, 7, 8), 1, 2);
    let b = bare_packet(v4(5, 6, 7, 8), v4(10, 0, 0, 2), 1, 2);
    let c = bare_packet(v4(5, 6, 7, 8), v4(9, 9, 9, 9), 1, 2);
    assert!(a.contains(&filter));
    assert!(b.contains(&filter));
    assert!(!c.contains(&filter));
}

#[test]
fn sport_and_sip_are_exact() {
    let filter = Filter::from_str("sport|443").unwrap();
    let swapped = bare_packet(v4(1, 2, 3, 4), v4(5, 6, 7, 8), 9000, 443);
    let direct = bare_packet(v4(1, 2, 3, 4), v4(5, 6, 7, 8), 443, 9000);
    assert!(!swapped.contains(&filter));
    assert!(direct.contains(&filter));
}

#[test]
fn empty_filter_matches_everything() {
    let empty = Filter { signature: Vec::new() };
    let pac = bare_packet(v4(1, 2, 3, 4), v4(5, 6, 7, 8), 1, 2);
    assert!(pac.contains(&empty));
}

#[test]
fn adding_a_token_never_widens_a_filter() {
    let base = Filter::from_str("port|443").unwrap();
    let narrowed = Filter::from_str("port|443 sip|10.0.0.2").unwrap();
    let packets = vec![
        bare_packet(v4(10, 0, 0, 2), v4(5, 6, 7, 8), 443, 1),
        bare_packet(v4(9, 9, 9, 9), v4(5, 6, 7, 8), 443, 1),
        bare_packet(v4(10, 0, 0, 2), v4(5, 6, 7, 8), 7, 1),
    ];
    for pac in &packets {
        if pac.contains(&narrowed) {
            assert!(pac.contains(&base));
        }
    }
}
