//! The attribute filter language and the signature engine.
//!
//! A filter expression is a sequence of whitespace-separated tokens: bare
//! protocol tags (`icmp`, `ip4`, `ip6`, `tcp`, `udp`, `ether`, case
//! insensitive) and `key|value` pairs with key in `ip`, `sip`, `dip`,
//! `port`, `sport`, `dport`.  A packet's signature always holds its source
//! and destination address and port plus one tag per decoded layer; a
//! filter matches a packet when every filter token is contained in that
//! signature, the generic `port` and `ip` tokens standing for "source or
//! destination".

use crate::addr::IpAddress;
use crate::addr::ip_parse;
use crate::addr::ip_text;
use crate::addr::ip_text_byte;
use crate::addr::format_ip;
use crate::addr::lemma_ip_text_bytes;
use crate::addr::lemma_ip_text_min_len;
use crate::addr::lemma_ip_text_round_trip;
use crate::addr::parse_ip;
use crate::packet::PacketHeader;
use crate::packet::ParsedPacket;
use crate::split::find_byte_at;
use crate::split::find_in;
use crate::split::lemma_find_in;
use crate::split::lemma_find_in_is;
use crate::split::split_on;
use crate::text::all_ascii;
use crate::text::all_dec_digits;
use crate::text::ascii_chars;
use crate::text::bytes_to_string;
use crate::text::dec_text;
use crate::text::dec_u16_ok;
use crate::text::dec_value;
use crate::text::format_u16;
use crate::text::lemma_dec_round_trip;
use crate::text::lemma_dec_text_digits;
use crate::text::parse_dec_u16;
use vstd::prelude::*;
use vstd::slice::slice_subrange;
use vstd::string::StringSliceAdditionalSpecFns;
use vstd::utf8::encode_utf8;

verus! {

/// The bar between a key and its value.
pub const BAR: u8 = 124;

/// One token of a filter expression, or one attribute of a packet
/// signature.  The generic `Port` and `Ip` forms appear only in filters and
/// stand for "source or destination".
#[derive(Debug, PartialEq, Eq, Structural, Clone, Copy)]
pub enum Flag {
    Port(u16),
    Sport(u16),
    Dport(u16),
    Ip(IpAddress),
    Sip(IpAddress),
    Dip(IpAddress),
    ICMP,
    IP4,
    IP6,
    TCP,
    UDP,
    ETHER,
}

/// Rejection of a filter token, carrying the offending token's text.
#[derive(Debug, PartialEq, Eq, Clone)]
pub enum FilterParseError {
    /// The token is no protocol tag and its key is not known.
    UnknownFlag(String),
    /// The key is known but the value is no port number or address.
    InvalidValue(String),
}

/// The key of a `key|value` token.
#[derive(Debug, PartialEq, Eq, Structural, Clone, Copy)]
pub enum FilterKey {
    Ip,
    Sip,
    Dip,
    Port,
    Sport,
    Dport,
}

/// Lowercase an ASCII letter; any other byte is unchanged.
pub open spec fn lower(b: u8) -> u8 {
    if 65 <= b && b <= 90 {
        (b + 32) as u8
    } else {
        b
    }
}

/// Lowercase a byte sequence.
pub open spec fn lower_seq(s: Seq<u8>) -> Seq<u8> {
    s.map_values(|b: u8| lower(b))
}

/// The bytes of `icmp`.
pub open spec fn kw_icmp() -> Seq<u8> {
    seq![105u8, 99u8, 109u8, 112u8]
}

/// The bytes of `ip4`.
pub open spec fn kw_ip4() -> Seq<u8> {
    seq![105u8, 112u8, 52u8]
}

/// The bytes of `ip6`.
pub open spec fn kw_ip6() -> Seq<u8> {
    seq![105u8, 112u8, 54u8]
}

/// The bytes of `tcp`.
pub open spec fn kw_tcp() -> Seq<u8> {
    seq![116u8, 99u8, 112u8]
}

/// The bytes of `udp`.
pub open spec fn kw_udp() -> Seq<u8> {
    seq![117u8, 100u8, 112u8]
}

/// The bytes of `ether`.
pub open spec fn kw_ether() -> Seq<u8> {
    seq![101u8, 116u8, 104u8, 101u8, 114u8]
}

/// The bytes of `ip`.
pub open spec fn kw_ip() -> Seq<u8> {
    seq![105u8, 112u8]
}

/// The bytes of `sip`.
pub open spec fn kw_sip() -> Seq<u8> {
    seq![115u8, 105u8, 112u8]
}

/// The bytes of `dip`.
pub open spec fn kw_dip() -> Seq<u8> {
    seq![100u8, 105u8, 112u8]
}

/// The bytes of `port`.
pub open spec fn kw_port() -> Seq<u8> {
    seq![112u8, 111u8, 114u8, 116u8]
}

/// The bytes of `sport`.
pub open spec fn kw_sport() -> Seq<u8> {
    seq![115u8, 112u8, 111u8, 114u8, 116u8]
}

/// The bytes of `dport`.
pub open spec fn kw_dport() -> Seq<u8> {
    seq![100u8, 112u8, 111u8, 114u8, 116u8]
}

/// The protocol tag named by a lowercased token, if any.
pub open spec fn tag_of(low: Seq<u8>) -> Option<Flag> {
    if low == kw_icmp() {
        Some(Flag::ICMP)
    } else if low == kw_ip4() {
        Some(Flag::IP4)
    } else if low == kw_ip6() {
        Some(Flag::IP6)
    } else if low == kw_tcp() {
        Some(Flag::TCP)
    } else if low == kw_udp() {
        Some(Flag::UDP)
    } else if low == kw_ether() {
        Some(Flag::ETHER)
    } else {
        None
    }
}

/// The key named by a lowercased key part, if any.
pub open spec fn key_of(k: Seq<u8>) -> Option<FilterKey> {
    if k == kw_ip() {
        Some(FilterKey::Ip)
    } else if k == kw_sip() {
        Some(FilterKey::Sip)
    } else if k == kw_dip() {
        Some(FilterKey::Dip)
    } else if k == kw_port() {
        Some(FilterKey::Port)
    } else if k == kw_sport() {
        Some(FilterKey::Sport)
    } else if k == kw_dport() {
        Some(FilterKey::Dport)
    } else {
        None
    }
}

/// The token a key and its lowercased value encode, if the value is a
/// well-formed port number or address.
pub open spec fn value_flag(kind: FilterKey, val: Seq<u8>) -> Option<Flag> {
    match kind {
        FilterKey::Ip => (match ip_parse(val) {
            Some(ad) => Some(Flag::Ip(ad)),
            None => None,
        }),
        FilterKey::Sip => (match ip_parse(val) {
            Some(ad) => Some(Flag::Sip(ad)),
            None => None,
        }),
        FilterKey::Dip => (match ip_parse(val) {
            Some(ad) => Some(Flag::Dip(ad)),
            None => None,
        }),
        FilterKey::Port => if dec_u16_ok(val) {
            Some(Flag::Port(dec_value(val) as u16))
        } else {
            None
        },
        FilterKey::Sport => if dec_u16_ok(val) {
            Some(Flag::Sport(dec_value(val) as u16))
        } else {
            None
        },
        FilterKey::Dport => if dec_u16_ok(val) {
            Some(Flag::Dport(dec_value(val) as u16))
        } else {
            None
        },
    }
}

/// The token encoded by the byte text `b`, if any: the token is lowercased
/// as a whole, tried as a protocol tag, and otherwise read as `key|value`
/// at the first bar.
#[verifier::opaque]
pub open spec fn flag_parse(b: Seq<u8>) -> Option<Flag> {
    let low = lower_seq(b);
    if tag_of(low) is Some {
        tag_of(low)
    } else {
        let i = find_in(low, BAR);
        if 0 <= i < low.len() {
            match key_of(low.take(i)) {
                Some(kind) => value_flag(kind, low.skip(i + 1)),
                None => None,
            }
        } else {
            None
        }
    }
}

/// When parsing fails, whether the failure is an unknown flag (no bar, or
/// an unknown key) rather than a bad value under a known key.
#[verifier::opaque]
pub open spec fn flag_fail_unknown(b: Seq<u8>) -> bool {
    let low = lower_seq(b);
    let i = find_in(low, BAR);
    !(0 <= i < low.len()) || key_of(low.take(i)) is None
}

/// Canonical text of a token, as bytes.
pub open spec fn flag_text(f: Flag) -> Seq<u8> {
    match f {
        Flag::Port(p) => kw_port() + seq![BAR] + dec_text(p as nat),
        Flag::Sport(p) => kw_sport() + seq![BAR] + dec_text(p as nat),
        Flag::Dport(p) => kw_dport() + seq![BAR] + dec_text(p as nat),
        Flag::Ip(ad) => kw_ip() + seq![BAR] + ip_text(ad),
        Flag::Sip(ad) => kw_sip() + seq![BAR] + ip_text(ad),
        Flag::Dip(ad) => kw_dip() + seq![BAR] + ip_text(ad),
        Flag::ICMP => kw_icmp(),
        Flag::IP4 => kw_ip4(),
        Flag::IP6 => kw_ip6(),
        Flag::TCP => kw_tcp(),
        Flag::UDP => kw_udp(),
        Flag::ETHER => kw_ether(),
    }
}

/// Lowercase a byte string.
fn to_lower(s: &[u8]) -> (r: Vec<u8>)
    ensures
        r@ == lower_seq(s@),
{
    let mut out: Vec<u8> = Vec::new();
    let mut i: usize = 0;
    while i < s.len()
        invariant
            0 <= i <= s@.len(),
            out@.len() == i,
            forall|j: int| 0 <= j < i ==> out@[j] == lower(#[trigger] s@[j]),
        decreases s@.len() - i,
    {
        let b = s[i];
        if 65 <= b && b <= 90 {
            out.push(b + 32);
        } else {
            out.push(b);
        }
        i = i + 1;
    }
    assert(out@ =~= lower_seq(s@));
    out
}

/// `s` equals the two given bytes.
fn eq2(s: &[u8], a: u8, b: u8) -> (r: bool)
    ensures
        r == (s@ == seq![a, b]),
{
    let ok = s.len() == 2 && s[0] == a && s[1] == b;
    proof {
        if ok {
            assert(s@ =~= seq![a, b]);
        } else if s@ == seq![a, b] {
            assert(s@.len() == 2 && s@[0] == a && s@[1] == b);
        }
    }
    ok
}

/// `s` equals the three given bytes.
fn eq3(s: &[u8], a: u8, b: u8, c: u8) -> (r: bool)
    ensures
        r == (s@ == seq![a, b, c]),
{
    let ok = s.len() == 3 && s[0] == a && s[1] == b && s[2] == c;
    proof {
        if ok {
            assert(s@ =~= seq![a, b, c]);
        } else if s@ == seq![a, b, c] {
            assert(s@.len() == 3 && s@[0] == a && s@[1] == b && s@[2] == c);
        }
    }
    ok
}

/// `s` equals the four given bytes.
fn eq4(s: &[u8], a: u8, b: u8, c: u8, d: u8) -> (r: bool)
    ensures
        r == (s@ == seq![a, b, c, d]),
{
    let ok = s.len() == 4 && s[0] == a && s[1] == b && s[2] == c && s[3] == d;
    proof {
        if ok {
            assert(s@ =~= seq![a, b, c, d]);
        } else if s@ == seq![a, b, c, d] {
            assert(s@.len() == 4 && s@[0] == a && s@[1] == b && s@[2] == c && s@[3] == d);
        }
    }
    ok
}

/// `s` equals the five given bytes.
fn eq5(s: &[u8], a: u8, b: u8, c: u8, d: u8, e: u8) -> (r: bool)
    ensures
        r == (s@ == seq![a, b, c, d, e]),
{
    let ok = s.len() == 5 && s[0] == a && s[1] == b && s[2] == c && s[3] == d && s[4] == e;
    proof {
        if ok {
            assert(s@ =~= seq![a, b, c, d, e]);
        } else if s@ == seq![a, b, c, d, e] {
            assert(s@.len() == 5 && s@[0] == a && s@[1] == b && s@[2] == c && s@[3] == d && s@[4]
                == e);
        }
    }
    ok
}

/// Recognize a lowercased protocol tag.
fn match_tag(low: &[u8]) -> (r: Option<Flag>)
    ensures
        r == tag_of(low@),
{
    // the byte arguments spell the keyword named in each arm
    if eq4(low, 105, 99, 109, 112) {  // icmp
        Some(Flag::ICMP)
    } else if eq3(low, 105, 112, 52) {  // ip4
        Some(Flag::IP4)
    } else if eq3(low, 105, 112, 54) {  // ip6
        Some(Flag::IP6)
    } else if eq3(low, 116, 99, 112) {  // tcp
        Some(Flag::TCP)
    } else if eq3(low, 117, 100, 112) {  // udp
        Some(Flag::UDP)
    } else if eq5(low, 101, 116, 104, 101, 114) {  // ether
        Some(Flag::ETHER)
    } else {
        None
    }
}

/// Recognize a lowercased key.
fn match_key(k: &[u8]) -> (r: Option<FilterKey>)
    ensures
        r == key_of(k@),
{
    // the byte arguments spell the keyword named in each arm
    if eq2(k, 105, 112) {  // ip
        Some(FilterKey::Ip)
    } else if eq3(k, 115, 105, 112) {  // sip
        Some(FilterKey::Sip)
    } else if eq3(k, 100, 105, 112) {  // dip
        Some(FilterKey::Dip)
    } else if eq4(k, 112, 111, 114, 116) {  // port
        Some(FilterKey::Port)
    } else if eq5(k, 115, 112, 111, 114, 116) {  // sport
        Some(FilterKey::Sport)
    } else if eq5(k, 100, 112, 111, 114, 116) {  // dport
        Some(FilterKey::Dport)
    } else {
        None
    }
}

impl Flag {
    /// Parse one filter token.  A protocol tag or a well-formed `key|value`
    /// pair gives the token; an unrecognized token or key gives
    /// `UnknownFlag`, a known key with a malformed value `InvalidValue`,
    /// each carrying the token's text.
    pub fn from_str(s: &str) -> (r: Result<Flag, FilterParseError>)
        ensures
            (match r {
                Ok(f) => flag_parse(s.spec_bytes()) == Some(f),
                Err(FilterParseError::UnknownFlag(t)) => flag_parse(s.spec_bytes()) is None
                    && flag_fail_unknown(s.spec_bytes()) && t@ == s@,
                Err(FilterParseError::InvalidValue(t)) => flag_parse(s.spec_bytes()) is None
                    && !flag_fail_unknown(s.spec_bytes()) && t@ == s@,
            }),
    {
        proof {
            reveal(flag_parse);
            reveal(flag_fail_unknown);
        }
        let bytes: &[u8] = s.as_bytes();
        let low: Vec<u8> = to_lower(bytes);
        if let Some(f) = match_tag(low.as_slice()) {
            return Ok(f);
        }
        match find_byte_at(low.as_slice(), BAR) {
            None => {
                proof {
                    lemma_find_in(low@, BAR);
                }
                Err(FilterParseError::UnknownFlag(s.to_owned()))
            },
            Some(i) => {
                proof {
                    lemma_find_in(low@, BAR);
                }
                let key = slice_subrange(low.as_slice(), 0, i);
                let val = slice_subrange(low.as_slice(), i + 1, low.len());
                proof {
                    assert(key@ =~= lower_seq(s.spec_bytes()).take(i as int));
                    assert(val@ =~= lower_seq(s.spec_bytes()).skip(i + 1));
                }
                match match_key(key) {
                    None => Err(FilterParseError::UnknownFlag(s.to_owned())),
                    Some(FilterKey::Ip) => (match parse_ip(val) {
                        Some(ad) => Ok(Flag::Ip(ad)),
                        None => Err(FilterParseError::InvalidValue(s.to_owned())),
                    }),
                    Some(FilterKey::Sip) => (match parse_ip(val) {
                        Some(ad) => Ok(Flag::Sip(ad)),
                        None => Err(FilterParseError::InvalidValue(s.to_owned())),
                    }),
                    Some(FilterKey::Dip) => (match parse_ip(val) {
                        Some(ad) => Ok(Flag::Dip(ad)),
                        None => Err(FilterParseError::InvalidValue(s.to_owned())),
                    }),
                    Some(FilterKey::Port) => (match parse_dec_u16(val) {
                        Some(p) => Ok(Flag::Port(p)),
                        None => Err(FilterParseError::InvalidValue(s.to_owned())),
                    }),
                    Some(FilterKey::Sport) => (match parse_dec_u16(val) {
                        Some(p) => Ok(Flag::Sport(p)),
                        None => Err(FilterParseError::InvalidValue(s.to_owned())),
                    }),
                    Some(FilterKey::Dport) => (match parse_dec_u16(val) {
                        Some(p) => Ok(Flag::Dport(p)),
                        None => Err(FilterParseError::InvalidValue(s.to_owned())),
                    }),
                }
            },
        }
    }

    /// Canonical text of the token; parsing it gives the token back.
    pub fn to_str(&self) -> (r: String)
        ensures
            r@ == ascii_chars(flag_text(*self)),
            encode_utf8(r@) == flag_text(*self),
    {
        // each arm pushes the keyword's bytes, then a bar and the value
        let mut out: Vec<u8> = Vec::new();
        match *self {
            Flag::Port(p) => {
                out.push(112);
                out.push(111);
                out.push(114);
                out.push(116);
                out.push(124);
                let mut d = format_u16(p);
                out.append(&mut d);
            },
            Flag::Sport(p) => {
                out.push(115);
                out.push(112);
                out.push(111);
                out.push(114);
                out.push(116);
                out.push(124);
                let mut d = format_u16(p);
                out.append(&mut d);
            },
            Flag::Dport(p) => {
                out.push(100);
                out.push(112);
                out.push(111);
                out.push(114);
                out.push(116);
                out.push(124);
                let mut d = format_u16(p);
                out.append(&mut d);
            },
            Flag::Ip(ad) => {
                out.push(105);
                out.push(112);
                out.push(124);
                let mut d = format_ip(&ad);
                out.append(&mut d);
            },
            Flag::Sip(ad) => {
                out.push(115);
                out.push(105);
                out.push(112);
                out.push(124);
                let mut d = format_ip(&ad);
                out.append(&mut d);
            },
            Flag::Dip(ad) => {
                out.push(100);
                out.push(105);
                out.push(112);
                out.push(124);
                let mut d = format_ip(&ad);
                out.append(&mut d);
            },
            Flag::ICMP => {
                out.push(105);
                out.push(99);
                out.push(109);
                out.push(112);
            },
            Flag::IP4 => {
                out.push(105);
                out.push(112);
                out.push(52);
            },
            Flag::IP6 => {
                out.push(105);
                out.push(112);
                out.push(54);
            },
            Flag::TCP => {
                out.push(116);
                out.push(99);
                out.push(112);
            },
            Flag::UDP => {
                out.push(117);
                out.push(100);
                out.push(112);
            },
            Flag::ETHER => {
                out.push(101);
                out.push(116);
                out.push(104);
                out.push(101);
                out.push(114);
            },
        }
        proof {
            assert(out@ =~= flag_text(*self));
            lemma_flag_text_bytes(*self);
        }
        bytes_to_string(out)
    }
}

/// A byte of canonical token text: a lowercase letter, a digit, a bar, a
/// dot or a colon — never an uppercase letter.
pub open spec fn flag_text_byte(b: u8) -> bool {
    b == BAR || ip_text_byte(b) || (97 <= b && b <= 122)
}

/// Canonical token text consists of such bytes; in particular it is ASCII
/// and lowercasing leaves it unchanged.
pub proof fn lemma_flag_text_bytes(f: Flag)
    ensures
        forall|j: int| 0 <= j < flag_text(f).len() ==> flag_text_byte(#[trigger] flag_text(f)[j]),
        all_ascii(flag_text(f)),
        lower_seq(flag_text(f)) == flag_text(f),
{
    match f {
        Flag::Port(p) => {
            lemma_dec_text_digits(p as nat);
            lemma_kw_value_bytes(kw_port(), dec_text(p as nat));
        },
        Flag::Sport(p) => {
            lemma_dec_text_digits(p as nat);
            lemma_kw_value_bytes(kw_sport(), dec_text(p as nat));
        },
        Flag::Dport(p) => {
            lemma_dec_text_digits(p as nat);
            lemma_kw_value_bytes(kw_dport(), dec_text(p as nat));
        },
        Flag::Ip(ad) => {
            lemma_ip_text_bytes(ad);
            lemma_kw_value_bytes(kw_ip(), ip_text(ad));
        },
        Flag::Sip(ad) => {
            lemma_ip_text_bytes(ad);
            lemma_kw_value_bytes(kw_sip(), ip_text(ad));
        },
        Flag::Dip(ad) => {
            lemma_ip_text_bytes(ad);
            lemma_kw_value_bytes(kw_dip(), ip_text(ad));
        },
        Flag::ICMP => {},
        Flag::IP4 => {},
        Flag::IP6 => {},
        Flag::TCP => {},
        Flag::UDP => {},
        Flag::ETHER => {},
    }
    assert forall|j: int| 0 <= j < flag_text(f).len() && flag_text_byte(flag_text(f)[j]) implies (
    flag_text(f)[j] < 128 && lower(flag_text(f)[j]) == flag_text(f)[j]) by {}
    assert(lower_seq(flag_text(f)) =~= flag_text(f));
}

/// A keyword of lowercase letters, a bar, and a value of digits, dots,
/// colons and lowercase letters concatenate to canonical token bytes.
proof fn lemma_kw_value_bytes(kw: Seq<u8>, val: Seq<u8>)
    requires
        forall|j: int| 0 <= j < kw.len() ==> 97 <= #[trigger] kw[j] <= 122,
        (forall|j: int| 0 <= j < val.len() ==> ip_text_byte(#[trigger] val[j])) || all_dec_digits(
            val,
        ),
    ensures
        forall|j: int|
            0 <= j < (kw + seq![BAR] + val).len() ==> flag_text_byte(
                #[trigger] (kw + seq![BAR] + val)[j],
            ),
{
    assert forall|j: int| 0 <= j < (kw + seq![BAR] + val).len() implies flag_text_byte(
        #[trigger] (kw + seq![BAR] + val)[j],
    ) by {
        if j < kw.len() {
            assert((kw + seq![BAR] + val)[j] == kw[j]);
        } else if j == kw.len() {
            assert((kw + seq![BAR] + val)[j] == BAR);
        } else {
            assert((kw + seq![BAR] + val)[j] == val[j - kw.len() - 1]);
        }
    }
}

/// Parsing the canonical text of any token gives the token back.
pub proof fn lemma_flag_round_trip(f: Flag)
    ensures
        flag_parse(flag_text(f)) == Some(f),
{
    reveal(flag_parse);
    lemma_flag_text_bytes(f);
    let text = flag_text(f);
    assert(lower_seq(text) == text);
    match f {
        Flag::Port(p) => {
            lemma_dec_text_digits(p as nat);
            lemma_key_value_round(kw_port(), dec_text(p as nat));
            lemma_dec_round_trip(p as nat);
        },
        Flag::Sport(p) => {
            lemma_dec_text_digits(p as nat);
            lemma_key_value_round(kw_sport(), dec_text(p as nat));
            lemma_dec_round_trip(p as nat);
        },
        Flag::Dport(p) => {
            lemma_dec_text_digits(p as nat);
            lemma_key_value_round(kw_dport(), dec_text(p as nat));
            lemma_dec_round_trip(p as nat);
        },
        Flag::Ip(ad) => {
            lemma_ip_text_min_len(ad);
            lemma_ip_text_bytes(ad);
            lemma_key_value_round(kw_ip(), ip_text(ad));
            lemma_ip_text_round_trip(ad);
        },
        Flag::Sip(ad) => {
            lemma_ip_text_min_len(ad);
            lemma_ip_text_bytes(ad);
            lemma_key_value_round(kw_sip(), ip_text(ad));
            lemma_ip_text_round_trip(ad);
        },
        Flag::Dip(ad) => {
            lemma_ip_text_min_len(ad);
            lemma_ip_text_bytes(ad);
            lemma_key_value_round(kw_dip(), ip_text(ad));
            lemma_ip_text_round_trip(ad);
        },
        Flag::ICMP => {},
        Flag::IP4 => {},
        Flag::IP6 => {},
        Flag::TCP => {},
        Flag::UDP => {},
        Flag::ETHER => {},
    }
}

/// The parts of a filter expression: its text split at every space.
pub open spec fn filter_parts(s: Seq<char>) -> Seq<Seq<char>> {
    split_on(s, ' ')
}

/// The token a part of a filter expression encodes, if any.
pub open spec fn part_flag(part: Seq<char>) -> Option<Flag> {
    flag_parse(encode_utf8(part))
}

/// Split a string at every occurrence of `sep`, as executable code.
fn split_str<'a>(s: &'a str, sep: char) -> (r: Vec<&'a str>)
    ensures
        r@.len() == split_on(s@, sep).len(),
        forall|k: int| 0 <= k < r@.len() ==> #[trigger] r@[k]@ == split_on(s@, sep)[k],
    decreases s@.len(),
{
    let n = s.unicode_len();
    let mut i: usize = 0;
    while i < n
        invariant
            n == s@.len(),
            0 <= i <= n,
            forall|j: int| 0 <= j < i ==> s@[j] != sep,
        decreases n - i,
    {
        if s.get_char(i) == sep {
            proof {
                lemma_find_in_is(s@, sep, i as int);
            }
            let head = s.substring_char(0, i);
            let tail = s.substring_char(i + 1, n);
            let mut rest = split_str(tail, sep);
            rest.insert(0, head);
            proof {
                assert(s@.take(i as int) =~= s@.subrange(0, i as int));
                assert(s@.skip(i + 1) =~= s@.subrange(i + 1, s@.len() as int));
            }
            return rest;
        }
        i = i + 1;
    }
    proof {
        lemma_find_in(s@, sep);
        let f = find_in(s@, sep);
        if f >= 0 {
            assert(s@[f] != sep);
        }
    }
    let mut out: Vec<&'a str> = Vec::new();
    out.push(s);
    out
}

/// An ordered set of filter tokens: a parsed filter expression, or the
/// signature of a decoded packet.
#[derive(Debug, PartialEq)]
pub struct Filter {
    pub signature: Vec<Flag>,
}

impl View for Filter {
    type V = Seq<Flag>;

    open spec fn view(&self) -> Seq<Flag> {
        self.signature@
    }
}

/// The tag that stands for a decoded layer in a signature.
pub open spec fn layer_flag(l: PacketHeader) -> Flag {
    match l {
        PacketHeader::ICMP(_) => Flag::ICMP,
        PacketHeader::Tcp(_) => Flag::TCP,
        PacketHeader::Udp(_) => Flag::UDP,
        PacketHeader::Ipv4(_) => Flag::IP4,
        PacketHeader::Ipv6(_) => Flag::IP6,
        PacketHeader::Ether(_) => Flag::ETHER,
    }
}

/// The canonical signature of a decoded packet: its source and destination
/// address and port — zero ports and all — and one tag per layer.
pub open spec fn packet_signature(p: ParsedPacket) -> Seq<Flag> {
    seq![
        Flag::Sip(p.src_ip),
        Flag::Dip(p.dest_ip),
        Flag::Sport(p.src_port),
        Flag::Dport(p.dest_port),
    ] + p.layers@.map_values(|l: PacketHeader| layer_flag(l))
}

/// Containment of one token in a signature: the generic `Port` and `Ip`
/// tokens stand for "source or destination", every other token must be an
/// element of the signature.
pub open spec fn sig_contains(sig: Seq<Flag>, f: Flag) -> bool {
    match f {
        Flag::Port(p) => sig.contains(Flag::Sport(p)) || sig.contains(Flag::Dport(p)),
        Flag::Ip(ad) => sig.contains(Flag::Sip(ad)) || sig.contains(Flag::Dip(ad)),
        _ => sig.contains(f),
    }
}

/// A filter matches a packet when every one of its tokens is contained in
/// the packet's signature; the empty filter matches every packet.
pub open spec fn filter_matches(tokens: Seq<Flag>, p: ParsedPacket) -> bool {
    forall|i: int|
        0 <= i < tokens.len() ==> sig_contains(packet_signature(p), #[trigger] tokens[i])
}

impl PacketHeader {
    /// The signature tag of this layer.
    pub fn to_flag(&self) -> (r: Flag)
        ensures
            r == layer_flag(*self),
    {
        match self {
            PacketHeader::ICMP(_) => Flag::ICMP,
            PacketHeader::Tcp(_) => Flag::TCP,
            PacketHeader::Udp(_) => Flag::UDP,
            PacketHeader::Ipv4(_) => Flag::IP4,
            PacketHeader::Ipv6(_) => Flag::IP6,
            PacketHeader::Ether(_) => Flag::ETHER,
        }
    }
}

impl Filter {
    /// Parse a whole filter expression: every space-separated token must
    /// parse, and the first failing token is reported in the error.
    #[verifier::rlimit(100)]
    pub fn from_str(s: &str) -> (r: Result<Filter, FilterParseError>)
        ensures
            (match r {
                Ok(f) => {
                    &&& (forall|k: int|
                        0 <= k < filter_parts(s@).len() ==> part_flag(
                            #[trigger] filter_parts(s@)[k],
                        ) is Some)
                    &&& f@.len() == filter_parts(s@).len()
                    &&& (forall|k: int|
                        0 <= k < f@.len() ==> Some(#[trigger] f@[k]) == part_flag(
                            filter_parts(s@)[k],
                        ))
                },
                Err(e) => (exists|k: int|
                    {
                        &&& 0 <= k < filter_parts(s@).len()
                        &&& part_flag(#[trigger] filter_parts(s@)[k]) is None
                        &&& (forall|j: int|
                            0 <= j < k ==> part_flag(#[trigger] filter_parts(s@)[j]) is Some)
                        &&& (match e {
                            FilterParseError::UnknownFlag(t) => flag_fail_unknown(
                                encode_utf8(filter_parts(s@)[k]),
                            ) && t@ == filter_parts(s@)[k],
                            FilterParseError::InvalidValue(t) => !flag_fail_unknown(
                                encode_utf8(filter_parts(s@)[k]),
                            ) && t@ == filter_parts(s@)[k],
                        })
                    }),
            }),
    {
        let parts = split_str(s, ' ');
        let mut signature: Vec<Flag> = Vec::new();
        let mut i: usize = 0;
        while i < parts.len()
            invariant
                parts@.len() == filter_parts(s@).len(),
                forall|k: int| 0 <= k < parts@.len() ==> #[trigger] parts@[k]@ == filter_parts(
                    s@,
                )[k],
                0 <= i <= parts@.len(),
                signature@.len() == i,
                forall|j: int|
                    0 <= j < i ==> Some(#[trigger] signature@[j]) == part_flag(filter_parts(s@)[j]),
            decreases parts@.len() - i,
        {
            match Flag::from_str(parts[i]) {
                Ok(fl) => {
                    signature.push(fl);
                },
                Err(e) => {
                    proof {
                        assert(parts@[i as int]@ == filter_parts(s@)[i as int]);
                        assert(part_flag(filter_parts(s@)[i as int]) is None);
                        assert forall|j: int| 0 <= j < i implies part_flag(
                            #[trigger] filter_parts(s@)[j],
                        ) is Some by {
                            assert(Some(signature@[j]) == part_flag(filter_parts(s@)[j]));
                        }
                    }
                    return Err(e);
                },
            }
            i = i + 1;
        }
        proof {
            assert forall|k: int| 0 <= k < filter_parts(s@).len() implies part_flag(
                #[trigger] filter_parts(s@)[k],
            ) is Some by {
                assert(Some(signature@[k]) == part_flag(filter_parts(s@)[k]));
            }
        }
        Ok(Filter { signature })
    }

    /// The signature of a decoded packet, as a filter value.
    pub fn from_packet(pac: &ParsedPacket) -> (r: Self)
        ensures
            r@ == packet_signature(*pac),
    {
        let mut sig: Vec<Flag> = Vec::new();
        sig.push(Flag::Sip(pac.src_ip));
        sig.push(Flag::Dip(pac.dest_ip));
        sig.push(Flag::Sport(pac.src_port));
        sig.push(Flag::Dport(pac.dest_port));
        let mut i: usize = 0;
        while i < pac.layers.len()
            invariant
                0 <= i <= pac.layers@.len(),
                sig@.len() == 4 + i,
                sig@[0] == Flag::Sip(pac.src_ip),
                sig@[1] == Flag::Dip(pac.dest_ip),
                sig@[2] == Flag::Sport(pac.src_port),
                sig@[3] == Flag::Dport(pac.dest_port),
                forall|j: int| 0 <= j < i ==> sig@[4 + j] == layer_flag(#[trigger] pac.layers@[j]),
            decreases pac.layers@.len() - i,
        {
            let fl = pac.layers[i].to_flag();
            sig.push(fl);
            i = i + 1;
        }
        proof {
            assert(sig@ =~= packet_signature(*pac));
        }
        Filter { signature: sig }
    }

    /// Whether this signature contains one token, the generic `Port` and
    /// `Ip` forms matching either direction.
    pub fn contains(&self, flag: &Flag) -> (r: bool)
        ensures
            r == sig_contains(self@, *flag),
    {
        match flag {
            Flag::Port(p) => self.contains_exact(&Flag::Sport(*p)) || self.contains_exact(
                &Flag::Dport(*p),
            ),
            Flag::Ip(ad) => self.contains_exact(&Flag::Sip(*ad)) || self.contains_exact(
                &Flag::Dip(*ad),
            ),
            _ => self.contains_exact(flag),
        }
    }

    /// Whether this signature holds exactly the given token.
    fn contains_exact(&self, flag: &Flag) -> (r: bool)
        ensures
            r == self@.contains(*flag),
    {
        let mut i: usize = 0;
        while i < self.signature.len()
            invariant
                0 <= i <= self.signature@.len(),
                forall|j: int| 0 <= j < i ==> self.signature@[j] != *flag,
            decreases self.signature@.len() - i,
        {
            if self.signature[i] == *flag {
                return true;
            }
            i = i + 1;
        }
        proof {
            if self@.contains(*flag) {
                let w = choose|w: int| 0 <= w < self@.len() && self@[w] == *flag;
                assert(self.signature@[w] != *flag);
            }
        }
        false
    }
}

impl ParsedPacket {
    /// Whether the packet matches the filter: every filter token is
    /// contained in this packet's signature.
    pub fn contains(&self, other: &Filter) -> (r: bool)
        ensures
            r == filter_matches(other@, *self),
    {
        let pac_sig = Filter::from_packet(self);
        let mut i: usize = 0;
        while i < other.signature.len()
            invariant
                pac_sig@ == packet_signature(*self),
                0 <= i <= other.signature@.len(),
                forall|j: int|
                    0 <= j < i ==> sig_contains(packet_signature(*self), #[trigger] other.signature@[j]),
            decreases other.signature@.len() - i,
        {
            if !pac_sig.contains(&other.signature[i]) {
                return false;
            }
            i = i + 1;
        }
        true
    }
}

/// Filter containment is monotone: a filter extended by one more token
/// matches no packet that the shorter filter does not match.
pub proof fn lemma_filter_monotone(tokens: Seq<Flag>, extra: Flag, p: ParsedPacket)
    ensures
        filter_matches(tokens.push(extra), p) ==> filter_matches(tokens, p),
{
    if filter_matches(tokens.push(extra), p) {
        assert forall|i: int| 0 <= i < tokens.len() implies sig_contains(
            packet_signature(p),
            #[trigger] tokens[i],
        ) by {
            assert(tokens.push(extra)[i] == tokens[i]);
        }
    }
}

/// For a `key|value` token text with a bar-free keyword and value, the
/// first bar sits right after the keyword, so the split at it recovers the
/// keyword and the value, and the text is no protocol tag.
proof fn lemma_key_value_round(kw: Seq<u8>, val: Seq<u8>)
    requires
        forall|j: int| 0 <= j < kw.len() ==> 97 <= #[trigger] kw[j] <= 122,
        (forall|j: int| 0 <= j < val.len() ==> ip_text_byte(#[trigger] val[j])) || all_dec_digits(
            val,
        ),
        val.len() >= 1,
        kw.len() + 1 + val.len() > 5,
    ensures
        find_in(kw + seq![BAR] + val, BAR) == kw.len(),
        (kw + seq![BAR] + val).take(kw.len() as int) == kw,
        (kw + seq![BAR] + val).skip(kw.len() as int + 1) == val,
        tag_of(kw + seq![BAR] + val) is None,
{
    let text = kw + seq![BAR] + val;
    assert(text[kw.len() as int] == BAR);
    assert forall|j: int| 0 <= j < kw.len() implies text[j] != BAR by {
        assert(text[j] == kw[j]);
    }
    lemma_find_in_is(text, BAR, kw.len() as int);
    assert(text.take(kw.len() as int) =~= kw);
    assert(text.skip(kw.len() as int + 1) =~= val);
    assert(tag_of(text) is None) by {
        assert(text.len() > 5);
        assert(kw_icmp().len() == 4);
        assert(kw_ip4().len() == 3);
        assert(kw_ip6().len() == 3);
        assert(kw_tcp().len() == 3);
        assert(kw_udp().len() == 3);
        assert(kw_ether().len() == 5);
    }
}

} // verus!
