//! Layered decoding of raw frames.
//!
//! [`ParsedPacket::from_packet`] turns the bytes of one captured frame into
//! a stack of protocol headers: Ethernet first, then IPv4 or IPv6, then
//! TCP, UDP or ICMP.  Decoding is all-or-nothing: any truncated, unknown or
//! unsupported layer fails the whole frame with a [`DecodeError`], and no
//! partial packet is ever produced.

use crate::addr::IpAddress;
use crate::text::ascii_chars;
use vstd::prelude::*;
use vstd::slice::slice_to_vec;
use vstd::slice::slice_subrange;

verus! {

/// Ether-type of IPv4.
pub const ETHERTYPE_IPV4: u16 = 0x0800;

/// Ether-type of IPv6.
pub const ETHERTYPE_IPV6: u16 = 0x86dd;

/// IP protocol number of ICMP.
pub const PROTO_ICMP: u8 = 1;

/// IP protocol number of TCP.
pub const PROTO_TCP: u8 = 6;

/// IP protocol number of UDP.
pub const PROTO_UDP: u8 = 17;

/// Big-endian value of two bytes.
pub open spec fn be16(hi: u8, lo: u8) -> int {
    hi * 256 + lo
}

/// Big-endian value of four bytes.
pub open spec fn be32(b0: u8, b1: u8, b2: u8, b3: u8) -> int {
    b0 * 0x1000000 + b1 * 0x10000 + b2 * 256 + b3
}

fn read_be16(hi: u8, lo: u8) -> (r: u16)
    ensures
        r == be16(hi, lo),
{
    (hi as u16) * 256 + (lo as u16)
}

fn read_be32(b0: u8, b1: u8, b2: u8, b3: u8) -> (r: u32)
    ensures
        r == be32(b0, b1, b2, b3),
{
    (b0 as u32) * 0x1000000 + (b1 as u32) * 0x10000 + (b2 as u32) * 256 + (b3 as u32)
}

/// A decoded Ethernet link-layer header.
#[derive(Debug, PartialEq, Clone)]
pub struct EtherHeader {
    pub dest_mac: Vec<u8>,
    pub source_mac: Vec<u8>,
    pub ethertype: u16,
}

/// A decoded IPv4 network-layer header.
#[derive(Debug, PartialEq, Clone, Copy)]
pub struct Ipv4Header {
    pub version: u8,
    pub ihl: u8,
    pub tos: u8,
    pub total_len: u16,
    pub ident: u16,
    pub flags_frag: u16,
    pub ttl: u8,
    pub protocol: u8,
    pub checksum: u16,
    pub source_addr: IpAddress,
    pub dest_addr: IpAddress,
}

/// A decoded IPv6 network-layer header.
#[derive(Debug, PartialEq, Clone, Copy)]
pub struct Ipv6Header {
    pub traffic_class: u8,
    pub flow_label: u32,
    pub payload_len: u16,
    pub next_header: u8,
    pub hop_limit: u8,
    pub source_addr: IpAddress,
    pub dest_addr: IpAddress,
}

/// A decoded TCP transport-layer header.
#[derive(Debug, PartialEq, Clone, Copy)]
pub struct TcpHeader {
    pub source_port: u16,
    pub dest_port: u16,
    pub sequence_no: u32,
    pub ack_no: u32,
    pub data_offset: u8,
    pub flags: u8,
    pub window: u16,
    pub checksum: u16,
    pub urgent_ptr: u16,
}

/// A decoded UDP transport-layer header.
#[derive(Debug, PartialEq, Clone, Copy)]
pub struct UdpHeader {
    pub source_port: u16,
    pub dest_port: u16,
    pub length: u16,
    pub checksum: u16,
}

/// A decoded ICMP header.
#[derive(Debug, PartialEq, Clone, Copy)]
pub struct IcmpHeader {
    pub kind: u8,
    pub code: u8,
    pub checksum: u16,
}

/// One decoded protocol layer of a frame.
#[derive(Debug, PartialEq, Clone)]
pub enum PacketHeader {
    ICMP(IcmpHeader),
    Tcp(TcpHeader),
    Udp(UdpHeader),
    Ipv4(Ipv4Header),
    Ipv6(Ipv6Header),
    Ether(EtherHeader),
}

/// Why a frame failed to decode.
#[derive(Debug, PartialEq, Eq, Structural, Clone, Copy)]
pub enum DecodeReason {
    /// Too short to hold an Ethernet header.
    TruncatedEthernet,
    /// The ether-type is neither IPv4 nor IPv6.
    UnsupportedEtherType,
    /// The IPv4 header is truncated or not version four.
    BadIpv4,
    /// The IPv6 header is truncated or not version six.
    BadIpv6,
    /// The inner protocol is none of TCP, UDP and ICMP.
    UnsupportedTransport,
    /// The TCP header is truncated or its offset field is bad.
    BadTcp,
    /// The UDP header is truncated.
    BadUdp,
    /// The ICMP header is truncated.
    BadIcmp,
}

/// Decoding failure of one frame; the frame is dropped as a whole.
#[derive(Debug, PartialEq, Eq, Structural, Clone, Copy)]
pub enum DecodeError {
    Malformed(DecodeReason),
}

/// One fully decoded frame: its header stack, outermost first, and the
/// flattened convenience fields used for display and filtering.
#[derive(Debug, PartialEq, Clone)]
pub struct ParsedPacket {
    pub src_ip: IpAddress,
    pub src_port: u16,
    pub dest_ip: IpAddress,
    pub dest_port: u16,
    pub layers: Vec<PacketHeader>,
    pub length: u32,
    pub ts: String,
}

/// The bytes hold an Ethernet header.
pub open spec fn ether_ok(data: Seq<u8>) -> bool {
    data.len() >= 14
}

/// `h` is the Ethernet header read from the front of `data`.
pub open spec fn ether_at(data: Seq<u8>, h: EtherHeader) -> bool {
    &&& ether_ok(data)
    &&& h.dest_mac@ == data.subrange(0, 6)
    &&& h.source_mac@ == data.subrange(6, 12)
    &&& h.ethertype == be16(data[12], data[13])
}

/// Length in bytes of the IPv4 header starting at `off`.
pub open spec fn ipv4_hdr_len(data: Seq<u8>, off: int) -> int {
    4 * (data[off] % 16)
}

/// The bytes hold an IPv4 header at `off`: version four, a plausible header
/// length, and enough bytes for it.
pub open spec fn ipv4_ok(data: Seq<u8>, off: int) -> bool {
    &&& off + 20 <= data.len()
    &&& data[off] / 16 == 4
    &&& data[off] % 16 >= 5
    &&& off + ipv4_hdr_len(data, off) <= data.len()
}

/// `h` is the IPv4 header read at `off`.
pub open spec fn ipv4_at(data: Seq<u8>, off: int, h: Ipv4Header) -> bool {
    &&& ipv4_ok(data, off)
    &&& h.version == 4
    &&& h.ihl == data[off] % 16
    &&& h.tos == data[off + 1]
    &&& h.total_len == be16(data[off + 2], data[off + 3])
    &&& h.ident == be16(data[off + 4], data[off + 5])
    &&& h.flags_frag == be16(data[off + 6], data[off + 7])
    &&& h.ttl == data[off + 8]
    &&& h.protocol == data[off + 9]
    &&& h.checksum == be16(data[off + 10], data[off + 11])
    &&& h.source_addr == (IpAddress::V4 {
        a: data[off + 12],
        b: data[off + 13],
        c: data[off + 14],
        d: data[off + 15],
    })
    &&& h.dest_addr == (IpAddress::V4 {
        a: data[off + 16],
        b: data[off + 17],
        c: data[off + 18],
        d: data[off + 19],
    })
}

/// The bytes hold an IPv6 header at `off`: version six and the fixed forty
/// header bytes.
pub open spec fn ipv6_ok(data: Seq<u8>, off: int) -> bool {
    &&& off + 40 <= data.len()
    &&& data[off] / 16 == 6
}

/// The `k`-th 16-bit group of an address whose bytes start at `base`.
pub open spec fn ipv6_group(data: Seq<u8>, base: int, k: int) -> int {
    be16(data[base + 2 * k], data[base + 2 * k + 1])
}

/// The IPv6 address whose sixteen bytes start at `base`.
pub open spec fn ipv6_addr_at(data: Seq<u8>, base: int) -> IpAddress {
    IpAddress::V6 {
        g0: ipv6_group(data, base, 0) as u16,
        g1: ipv6_group(data, base, 1) as u16,
        g2: ipv6_group(data, base, 2) as u16,
        g3: ipv6_group(data, base, 3) as u16,
        g4: ipv6_group(data, base, 4) as u16,
        g5: ipv6_group(data, base, 5) as u16,
        g6: ipv6_group(data, base, 6) as u16,
        g7: ipv6_group(data, base, 7) as u16,
    }
}

/// `h` is the IPv6 header read at `off`.
pub open spec fn ipv6_at(data: Seq<u8>, off: int, h: Ipv6Header) -> bool {
    &&& ipv6_ok(data, off)
    &&& h.traffic_class == (data[off] % 16) * 16 + data[off + 1] / 16
    &&& h.flow_label == (data[off + 1] % 16) * 0x10000 + data[off + 2] * 256 + data[off + 3]
    &&& h.payload_len == be16(data[off + 4], data[off + 5])
    &&& h.next_header == data[off + 6]
    &&& h.hop_limit == data[off + 7]
    &&& h.source_addr == ipv6_addr_at(data, off + 8)
    &&& h.dest_addr == ipv6_addr_at(data, off + 24)
}

/// Length in bytes of the TCP header starting at `off`.
pub open spec fn tcp_data_off(data: Seq<u8>, off: int) -> int {
    4 * (data[off + 12] / 16)
}

/// The bytes hold a TCP header at `off`.
pub open spec fn tcp_ok(data: Seq<u8>, off: int) -> bool {
    &&& off + 20 <= data.len()
    &&& data[off + 12] / 16 >= 5
    &&& off + tcp_data_off(data, off) <= data.len()
}

/// `h` is the TCP header read at `off`.
pub open spec fn tcp_at(data: Seq<u8>, off: int, h: TcpHeader) -> bool {
    &&& tcp_ok(data, off)
    &&& h.source_port == be16(data[off], data[off + 1])
    &&& h.dest_port == be16(data[off + 2], data[off + 3])
    &&& h.sequence_no == be32(data[off + 4], data[off + 5], data[off + 6], data[off + 7])
    &&& h.ack_no == be32(data[off + 8], data[off + 9], data[off + 10], data[off + 11])
    &&& h.data_offset == data[off + 12] / 16
    &&& h.flags == data[off + 13]
    &&& h.window == be16(data[off + 14], data[off + 15])
    &&& h.checksum == be16(data[off + 16], data[off + 17])
    &&& h.urgent_ptr == be16(data[off + 18], data[off + 19])
}

/// The bytes hold a UDP header at `off`.
pub open spec fn udp_ok(data: Seq<u8>, off: int) -> bool {
    off + 8 <= data.len()
}

/// `h` is the UDP header read at `off`.
pub open spec fn udp_at(data: Seq<u8>, off: int, h: UdpHeader) -> bool {
    &&& udp_ok(data, off)
    &&& h.source_port == be16(data[off], data[off + 1])
    &&& h.dest_port == be16(data[off + 2], data[off + 3])
    &&& h.length == be16(data[off + 4], data[off + 5])
    &&& h.checksum == be16(data[off + 6], data[off + 7])
}

/// The bytes hold an ICMP header at `off`.
pub open spec fn icmp_ok(data: Seq<u8>, off: int) -> bool {
    off + 8 <= data.len()
}

/// `h` is the ICMP header read at `off`.
pub open spec fn icmp_at(data: Seq<u8>, off: int, h: IcmpHeader) -> bool {
    &&& icmp_ok(data, off)
    &&& h.kind == data[off]
    &&& h.code == data[off + 1]
    &&& h.checksum == be16(data[off + 2], data[off + 3])
}

/// The transport layers this decoder supports at `off` with protocol number
/// `proto`.
pub open spec fn transport_ok(data: Seq<u8>, off: int, proto: u8) -> bool {
    ||| (proto == PROTO_TCP && tcp_ok(data, off))
    ||| (proto == PROTO_UDP && udp_ok(data, off))
    ||| (proto == PROTO_ICMP && icmp_ok(data, off))
}

/// Offset of the transport header, meaningful once the link and network
/// layers are well formed.
pub open spec fn transport_off(data: Seq<u8>) -> int {
    if be16(data[12], data[13]) == ETHERTYPE_IPV4 {
        14 + ipv4_hdr_len(data, 14)
    } else {
        54
    }
}

/// Protocol number of the transport layer, read from the network header.
pub open spec fn transport_proto(data: Seq<u8>) -> u8 {
    if be16(data[12], data[13]) == ETHERTYPE_IPV4 {
        data[23]
    } else {
        data[20]
    }
}

/// The frame decodes as a whole: Ethernet, then IPv4 or IPv6, then TCP, UDP
/// or ICMP.
pub open spec fn decode_ok(data: Seq<u8>) -> bool {
    &&& ether_ok(data)
    &&& {
        let et = be16(data[12], data[13]);
        ||| (et == ETHERTYPE_IPV4 && ipv4_ok(data, 14) && transport_ok(
            data,
            transport_off(data),
            transport_proto(data),
        ))
        ||| (et == ETHERTYPE_IPV6 && ipv6_ok(data, 14) && transport_ok(
            data,
            transport_off(data),
            transport_proto(data),
        ))
    }
}

/// Which transport failure to report for protocol number `proto`.
pub open spec fn transport_reason(proto: u8) -> DecodeReason {
    if proto == PROTO_TCP {
        DecodeReason::BadTcp
    } else if proto == PROTO_UDP {
        DecodeReason::BadUdp
    } else if proto == PROTO_ICMP {
        DecodeReason::BadIcmp
    } else {
        DecodeReason::UnsupportedTransport
    }
}

/// The failure reported for a frame that does not decode; meaningful only
/// when `decode_ok` fails.
pub open spec fn decode_reason(data: Seq<u8>) -> DecodeReason {
    if !ether_ok(data) {
        DecodeReason::TruncatedEthernet
    } else {
        let et = be16(data[12], data[13]);
        if et == ETHERTYPE_IPV4 {
            if !ipv4_ok(data, 14) {
                DecodeReason::BadIpv4
            } else {
                transport_reason(transport_proto(data))
            }
        } else if et == ETHERTYPE_IPV6 {
            if !ipv6_ok(data, 14) {
                DecodeReason::BadIpv6
            } else {
                transport_reason(transport_proto(data))
            }
        } else {
            DecodeReason::UnsupportedEtherType
        }
    }
}

/// `p` is the full decoding of the frame `data` captured with the given
/// declared length and timestamp text.
pub open spec fn decodes_to(data: Seq<u8>, length: u32, ts: Seq<char>, p: ParsedPacket) -> bool {
    &&& p.length == length
    &&& p.ts@ == ts
    &&& p.layers@.len() == 3
    &&& (p.layers@[0] matches PacketHeader::Ether(eh) && ether_at(data, eh))
    &&& net_layer_at(data, p)
    &&& transport_layer_at(data, p)
}

/// The network layer of `p` matches the bytes, and fills the flattened
/// address fields.
pub open spec fn net_layer_at(data: Seq<u8>, p: ParsedPacket) -> bool {
    let et = be16(data[12], data[13]);
    if et == ETHERTYPE_IPV4 {
        &&& (p.layers@[1] matches PacketHeader::Ipv4(ih) && ipv4_at(data, 14, ih)
            && p.src_ip == ih.source_addr && p.dest_ip == ih.dest_addr)
    } else if et == ETHERTYPE_IPV6 {
        &&& (p.layers@[1] matches PacketHeader::Ipv6(ih) && ipv6_at(data, 14, ih)
            && p.src_ip == ih.source_addr && p.dest_ip == ih.dest_addr)
    } else {
        false
    }
}

/// The transport layer of `p` matches the bytes, and fills the flattened
/// port fields; ICMP has no ports and leaves them zero.
pub open spec fn transport_layer_at(data: Seq<u8>, p: ParsedPacket) -> bool {
    let off = transport_off(data);
    let proto = transport_proto(data);
    if proto == PROTO_TCP {
        &&& (p.layers@[2] matches PacketHeader::Tcp(th) && tcp_at(data, off, th) && p.src_port
            == th.source_port && p.dest_port == th.dest_port)
    } else if proto == PROTO_UDP {
        &&& (p.layers@[2] matches PacketHeader::Udp(uh) && udp_at(data, off, uh) && p.src_port
            == uh.source_port && p.dest_port == uh.dest_port)
    } else if proto == PROTO_ICMP {
        &&& (p.layers@[2] matches PacketHeader::ICMP(ih) && icmp_at(data, off, ih) && p.src_port
            == 0 && p.dest_port == 0)
    } else {
        false
    }
}

/// Parse the Ethernet header at the front of the frame.
fn parse_ether(data: &[u8]) -> (r: Option<EtherHeader>)
    ensures
        (match r {
            Some(h) => ether_ok(data@) && ether_at(data@, h),
            None => !ether_ok(data@),
        }),
{
    if data.len() < 14 {
        return None;
    }
    let dest_mac: Vec<u8> = slice_to_vec(slice_subrange(data, 0, 6));
    let source_mac: Vec<u8> = slice_to_vec(slice_subrange(data, 6, 12));
    let ethertype = read_be16(data[12], data[13]);
    Some(EtherHeader { dest_mac, source_mac, ethertype })
}

/// Parse the IPv4 header at `off`; on success also return the offset of its
/// payload.
fn parse_ip4(data: &[u8], off: usize) -> (r: Option<(Ipv4Header, usize)>)
    requires
        off <= data@.len(),
    ensures
        (match r {
            Some(pair) => ipv4_ok(data@, off as int) && ipv4_at(data@, off as int, pair.0)
                && pair.1 == off + ipv4_hdr_len(data@, off as int),
            None => !ipv4_ok(data@, off as int),
        }),
{
    if data.len() - off < 20 {
        return None;
    }
    let vb = data[off];
    let version = vb / 16;
    let ihl = vb % 16;
    if version != 4 || ihl < 5 {
        return None;
    }
    let hdr_len: usize = 4 * (ihl as usize);
    if data.len() - off < hdr_len {
        return None;
    }
    let h = Ipv4Header {
        version,
        ihl,
        tos: data[off + 1],
        total_len: read_be16(data[off + 2], data[off + 3]),
        ident: read_be16(data[off + 4], data[off + 5]),
        flags_frag: read_be16(data[off + 6], data[off + 7]),
        ttl: data[off + 8],
        protocol: data[off + 9],
        checksum: read_be16(data[off + 10], data[off + 11]),
        source_addr: IpAddress::V4 {
            a: data[off + 12],
            b: data[off + 13],
            c: data[off + 14],
            d: data[off + 15],
        },
        dest_addr: IpAddress::V4 {
            a: data[off + 16],
            b: data[off + 17],
            c: data[off + 18],
            d: data[off + 19],
        },
    };
    Some((h, off + hdr_len))
}

/// Parse the IPv6 header at `off`; on success also return the offset of its
/// payload.
fn parse_ip6(data: &[u8], off: usize) -> (r: Option<(Ipv6Header, usize)>)
    requires
        off <= data@.len(),
    ensures
        (match r {
            Some(pair) => ipv6_ok(data@, off as int) && ipv6_at(data@, off as int, pair.0)
                && pair.1 == off + 40,
            None => !ipv6_ok(data@, off as int),
        }),
{
    if data.len() - off < 40 {
        return None;
    }
    let vb = data[off];
    if vb / 16 != 6 {
        return None;
    }
    let h = Ipv6Header {
        traffic_class: (vb % 16) * 16 + data[off + 1] / 16,
        flow_label: ((data[off + 1] % 16) as u32) * 0x10000 + (data[off + 2] as u32) * 256 + (
        data[off + 3] as u32),
        payload_len: read_be16(data[off + 4], data[off + 5]),
        next_header: data[off + 6],
        hop_limit: data[off + 7],
        source_addr: read_v6_addr(data, off + 8),
        dest_addr: read_v6_addr(data, off + 24),
    };
    Some((h, off + 40))
}

/// Read the sixteen bytes of an IPv6 address starting at `base`.
fn read_v6_addr(data: &[u8], base: usize) -> (r: IpAddress)
    requires
        base + 16 <= data@.len(),
    ensures
        r == ipv6_addr_at(data@, base as int),
{
    IpAddress::V6 {
        g0: read_be16(data[base], data[base + 1]),
        g1: read_be16(data[base + 2], data[base + 3]),
        g2: read_be16(data[base + 4], data[base + 5]),
        g3: read_be16(data[base + 6], data[base + 7]),
        g4: read_be16(data[base + 8], data[base + 9]),
        g5: read_be16(data[base + 10], data[base + 11]),
        g6: read_be16(data[base + 12], data[base + 13]),
        g7: read_be16(data[base + 14], data[base + 15]),
    }
}

/// Parse the TCP header at `off`.
fn parse_tcp(data: &[u8], off: usize) -> (r: Option<TcpHeader>)
    requires
        off <= data@.len(),
    ensures
        (match r {
            Some(h) => tcp_ok(data@, off as int) && tcp_at(data@, off as int, h),
            None => !tcp_ok(data@, off as int),
        }),
{
    if data.len() - off < 20 {
        return None;
    }
    let doff = data[off + 12] / 16;
    if doff < 5 {
        return None;
    }
    if data.len() - off < 4 * (doff as usize) {
        return None;
    }
    Some(
        TcpHeader {
            source_port: read_be16(data[off], data[off + 1]),
            dest_port: read_be16(data[off + 2], data[off + 3]),
            sequence_no: read_be32(data[off + 4], data[off + 5], data[off + 6], data[off + 7]),
            ack_no: read_be32(data[off + 8], data[off + 9], data[off + 10], data[off + 11]),
            data_offset: doff,
            flags: data[off + 13],
            window: read_be16(data[off + 14], data[off + 15]),
            checksum: read_be16(data[off + 16], data[off + 17]),
            urgent_ptr: read_be16(data[off + 18], data[off + 19]),
        },
    )
}

/// Parse the UDP header at `off`.
fn parse_udp(data: &[u8], off: usize) -> (r: Option<UdpHeader>)
    requires
        off <= data@.len(),
    ensures
        (match r {
            Some(h) => udp_ok(data@, off as int) && udp_at(data@, off as int, h),
            None => !udp_ok(data@, off as int),
        }),
{
    if data.len() - off < 8 {
        return None;
    }
    Some(
        UdpHeader {
            source_port: read_be16(data[off], data[off + 1]),
            dest_port: read_be16(data[off + 2], data[off + 3]),
            length: read_be16(data[off + 4], data[off + 5]),
            checksum: read_be16(data[off + 6], data[off + 7]),
        },
    )
}

/// Parse the ICMP header at `off`.
fn parse_icmp(data: &[u8], off: usize) -> (r: Option<IcmpHeader>)
    requires
        off <= data@.len(),
    ensures
        (match r {
            Some(h) => icmp_ok(data@, off as int) && icmp_at(data@, off as int, h),
            None => !icmp_ok(data@, off as int),
        }),
{
    if data.len() - off < 8 {
        return None;
    }
    Some(
        IcmpHeader {
            kind: data[off],
            code: data[off + 1],
            checksum: read_be16(data[off + 2], data[off + 3]),
        },
    )
}

impl ParsedPacket {
    /// Decode one frame.  Returns the fully decoded packet exactly when the
    /// frame is a well-formed Ethernet/IP/transport chain, and the reason of
    /// the first failing layer otherwise.
    pub fn from_packet(data: &[u8], length: u32, ts: String) -> (r: Result<
        ParsedPacket,
        DecodeError,
    >)
        ensures
            (match r {
                Ok(p) => decode_ok(data@) && decodes_to(data@, length, ts@, p),
                Err(e) => !decode_ok(data@) && e == DecodeError::Malformed(decode_reason(data@)),
            }),
    {
        let eh = match parse_ether(data) {
            None => {
                return Err(DecodeError::Malformed(DecodeReason::TruncatedEthernet));
            },
            Some(h) => h,
        };
        if eh.ethertype == ETHERTYPE_IPV4 {
            let (ih, toff) = match parse_ip4(data, 14) {
                None => {
                    return Err(DecodeError::Malformed(DecodeReason::BadIpv4));
                },
                Some(pair) => pair,
            };
            proof {
                assert(toff == transport_off(data@));
                assert(ih.protocol == transport_proto(data@));
            }
            let src_ip = ih.source_addr;
            let dest_ip = ih.dest_addr;
            let proto = ih.protocol;
            if proto == PROTO_TCP {
                let th = match parse_tcp(data, toff) {
                    None => {
                        return Err(DecodeError::Malformed(DecodeReason::BadTcp));
                    },
                    Some(h) => h,
                };
                let src_port = th.source_port;
                let dest_port = th.dest_port;
                let mut layers: Vec<PacketHeader> = Vec::new();
                layers.push(PacketHeader::Ether(eh));
                layers.push(PacketHeader::Ipv4(ih));
                layers.push(PacketHeader::Tcp(th));
                Ok(ParsedPacket { src_ip, src_port, dest_ip, dest_port, layers, length, ts })
            } else if proto == PROTO_UDP {
                let uh = match parse_udp(data, toff) {
                    None => {
                        return Err(DecodeError::Malformed(DecodeReason::BadUdp));
                    },
                    Some(h) => h,
                };
                let src_port = uh.source_port;
                let dest_port = uh.dest_port;
                let mut layers: Vec<PacketHeader> = Vec::new();
                layers.push(PacketHeader::Ether(eh));
                layers.push(PacketHeader::Ipv4(ih));
                layers.push(PacketHeader::Udp(uh));
                Ok(ParsedPacket { src_ip, src_port, dest_ip, dest_port, layers, length, ts })
            } else if proto == PROTO_ICMP {
                let ch = match parse_icmp(data, toff) {
                    None => {
                        return Err(DecodeError::Malformed(DecodeReason::BadIcmp));
                    },
                    Some(h) => h,
                };
                let mut layers: Vec<PacketHeader> = Vec::new();
                layers.push(PacketHeader::Ether(eh));
                layers.push(PacketHeader::Ipv4(ih));
                layers.push(PacketHeader::ICMP(ch));
                Ok(
                    ParsedPacket {
                        src_ip,
                        src_port: 0,
                        dest_ip,
                        dest_port: 0,
                        layers,
                        length,
                        ts,
                    },
                )
            } else {
                Err(DecodeError::Malformed(DecodeReason::UnsupportedTransport))
            }
        } else if eh.ethertype == ETHERTYPE_IPV6 {
            let (ih, toff) = match parse_ip6(data, 14) {
                None => {
                    return Err(DecodeError::Malformed(DecodeReason::BadIpv6));
                },
                Some(pair) => pair,
            };
            proof {
                assert(toff == transport_off(data@));
                assert(ih.next_header == transport_proto(data@));
            }
            let src_ip = ih.source_addr;
            let dest_ip = ih.dest_addr;
            let proto = ih.next_header;
            if proto == PROTO_TCP {
                let th = match parse_tcp(data, toff) {
                    None => {
                        return Err(DecodeError::Malformed(DecodeReason::BadTcp));
                    },
                    Some(h) => h,
                };
                let src_port = th.source_port;
                let dest_port = th.dest_port;
                let mut layers: Vec<PacketHeader> = Vec::new();
                layers.push(PacketHeader::Ether(eh));
                layers.push(PacketHeader::Ipv6(ih));
                layers.push(PacketHeader::Tcp(th));
                Ok(ParsedPacket { src_ip, src_port, dest_ip, dest_port, layers, length, ts })
            } else if proto == PROTO_UDP {
                let uh = match parse_udp(data, toff) {
                    None => {
                        return Err(DecodeError::Malformed(DecodeReason::BadUdp));
                    },
                    Some(h) => h,
                };
                let src_port = uh.source_port;
                let dest_port = uh.dest_port;
                let mut layers: Vec<PacketHeader> = Vec::new();
                layers.push(PacketHeader::Ether(eh));
                layers.push(PacketHeader::Ipv6(ih));
                layers.push(PacketHeader::Udp(uh));
                Ok(ParsedPacket { src_ip, src_port, dest_ip, dest_port, layers, length, ts })
            } else if proto == PROTO_ICMP {
                let ch = match parse_icmp(data, toff) {
                    None => {
                        return Err(DecodeError::Malformed(DecodeReason::BadIcmp));
                    },
                    Some(h) => h,
                };
                let mut layers: Vec<PacketHeader> = Vec::new();
                layers.push(PacketHeader::Ether(eh));
                layers.push(PacketHeader::Ipv6(ih));
                layers.push(PacketHeader::ICMP(ch));
                Ok(
                    ParsedPacket {
                        src_ip,
                        src_port: 0,
                        dest_ip,
                        dest_port: 0,
                        layers,
                        length,
                        ts,
                    },
                )
            } else {
                Err(DecodeError::Malformed(DecodeReason::UnsupportedTransport))
            }
        } else {
            Err(DecodeError::Malformed(DecodeReason::UnsupportedEtherType))
        }
    }

    /// The flattened display fields: source and destination address text,
    /// source and destination port.
    pub fn meta(&self) -> (r: (String, String, u16, u16))
        ensures
            r.0@ == ascii_chars(crate::addr::ip_text(self.src_ip)),
            r.1@ == ascii_chars(crate::addr::ip_text(self.dest_ip)),
            r.2 == self.src_port,
            r.3 == self.dest_port,
    {
        let src = crate::addr::format_ip(&self.src_ip);
        let dst = crate::addr::format_ip(&self.dest_ip);
        proof {
            crate::addr::lemma_ip_text_ascii(self.src_ip);
            crate::addr::lemma_ip_text_ascii(self.dest_ip);
        }
        (
            crate::text::bytes_to_string(src),
            crate::text::bytes_to_string(dst),
            self.src_port,
            self.dest_port,
        )
    }
}

/// A frame too short for an Ethernet header never decodes, and fails for
/// that reason.
pub proof fn lemma_short_frame_fails(data: Seq<u8>)
    requires
        data.len() < 14,
    ensures
        !decode_ok(data),
        decode_reason(data) == DecodeReason::TruncatedEthernet,
{
}

/// A well-formed Ethernet/IPv4/TCP frame decodes, its layer stack starts
/// with the Ethernet layer, and its ports are the TCP header's ports.
pub proof fn lemma_decode_ethernet_ipv4_tcp(data: Seq<u8>, length: u32, ts: Seq<char>, p: ParsedPacket)
    requires
        ether_ok(data),
        be16(data[12], data[13]) == ETHERTYPE_IPV4,
        ipv4_ok(data, 14),
        data[23] == PROTO_TCP,
        tcp_ok(data, 14 + ipv4_hdr_len(data, 14)),
        decodes_to(data, length, ts, p),
    ensures
        decode_ok(data),
        p.layers@.len() == 3,
        p.layers@[0] is Ether,
        p.src_port == be16(data[transport_off(data)], data[transport_off(data) + 1]),
        p.dest_port == be16(data[transport_off(data) + 2], data[transport_off(data) + 3]),
{
}

} // verus!
