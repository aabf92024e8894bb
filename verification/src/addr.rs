//! Network addresses as plain values.
//!
//! An [`IpAddress`] holds the four octets of an IPv4 address or the eight
//! 16-bit groups of an IPv6 address.  Its canonical text is the dotted-quad
//! decimal form for IPv4 and the full eight-group lowercase colon-hex form
//! for IPv6; parsing accepts exactly those shapes (with leading zeros and
//! either letter case in the hexadecimal groups), and parsing the canonical
//! text of any address gives that address back.

use crate::text::all_dec_digits;
use crate::text::all_hex_digits;
use crate::text::dec_text;
use crate::text::dec_value;
use crate::text::hex_group_ok;
use crate::text::hex_text;
use crate::text::hex_value;
use crate::text::is_dec_digit;
use crate::text::is_hex_digit;
use crate::text::format_u16;
use crate::text::format_u16_hex;
use crate::text::lemma_dec_round_trip;
use crate::text::lemma_dec_text_digits;
use crate::text::lemma_dec_text_len;
use crate::text::lemma_dec_text_no_leading_zero;
use crate::text::lemma_hex_round_trip;
use crate::text::lemma_hex_text_digits;
use crate::text::lemma_pow10_values;
use crate::text::parse_dec_u16;
use crate::text::parse_hex_group;
use crate::split::find_byte_at;
use crate::split::split_on;
use crate::split::lemma_find_in;
use crate::split::lemma_split_no_sep;
use crate::split::lemma_split_concat;
use vstd::prelude::*;
use vstd::slice::slice_to_vec;

verus! {

/// The dot that separates IPv4 octets.
pub const DOT: u8 = 46;

/// The colon that separates IPv6 groups.
pub const COLON: u8 = 58;

/// An IPv4 or IPv6 address, held as plain numeric fields.
#[derive(Clone, Copy, Debug, PartialEq, Eq, Structural)]
pub enum IpAddress {
    V4 { a: u8, b: u8, c: u8, d: u8 },
    V6 { g0: u16, g1: u16, g2: u16, g3: u16, g4: u16, g5: u16, g6: u16, g7: u16 },
}

/// `s` is an acceptable decimal octet of a dotted quad: one to three digits,
/// no leading zero, value at most 255.
pub open spec fn dec_octet_ok(s: Seq<u8>) -> bool {
    1 <= s.len() <= 3 && all_dec_digits(s) && dec_value(s) <= 255 && (s.len() == 1 || s[0] != 48)
}

/// The IPv4 address encoded by the parts of a dot-split, if any.
pub open spec fn ipv4_from_parts(parts: Seq<Seq<u8>>) -> Option<IpAddress> {
    if parts.len() == 4 && dec_octet_ok(parts[0]) && dec_octet_ok(parts[1]) && dec_octet_ok(
        parts[2],
    ) && dec_octet_ok(parts[3]) {
        Some(
            IpAddress::V4 {
                a: dec_value(parts[0]) as u8,
                b: dec_value(parts[1]) as u8,
                c: dec_value(parts[2]) as u8,
                d: dec_value(parts[3]) as u8,
            },
        )
    } else {
        None
    }
}

/// The IPv6 address encoded by the parts of a colon-split, if any.
pub open spec fn ipv6_from_parts(parts: Seq<Seq<u8>>) -> Option<IpAddress> {
    if parts.len() == 8 && (forall|k: int| 0 <= k < 8 ==> hex_group_ok(#[trigger] parts[k])) {
        Some(
            IpAddress::V6 {
                g0: hex_value(parts[0]) as u16,
                g1: hex_value(parts[1]) as u16,
                g2: hex_value(parts[2]) as u16,
                g3: hex_value(parts[3]) as u16,
                g4: hex_value(parts[4]) as u16,
                g5: hex_value(parts[5]) as u16,
                g6: hex_value(parts[6]) as u16,
                g7: hex_value(parts[7]) as u16,
            },
        )
    } else {
        None
    }
}

/// Parse an address: a dotted quad if the text has that shape, otherwise a
/// full colon-hex IPv6 form, otherwise nothing.
pub open spec fn ip_parse(s: Seq<u8>) -> Option<IpAddress> {
    if ipv4_from_parts(split_on(s, DOT)) is Some {
        ipv4_from_parts(split_on(s, DOT))
    } else {
        ipv6_from_parts(split_on(s, COLON))
    }
}

/// Canonical text of an address, nested after the first separator so that a
/// split peels parts off from the left.
pub open spec fn ip_text(ip: IpAddress) -> Seq<u8> {
    match ip {
        IpAddress::V4 { a, b, c, d } => dec_text(a as nat) + seq![DOT] + (dec_text(b as nat)
            + seq![DOT] + (dec_text(c as nat) + seq![DOT] + dec_text(d as nat))),
        IpAddress::V6 { g0, g1, g2, g3, g4, g5, g6, g7 } => hex_text(g0 as nat) + seq![COLON] + (
        hex_text(g1 as nat) + seq![COLON] + (hex_text(g2 as nat) + seq![COLON] + (hex_text(
            g3 as nat,
        ) + seq![COLON] + (hex_text(g4 as nat) + seq![COLON] + (hex_text(g5 as nat) + seq![COLON]
            + (hex_text(g6 as nat) + seq![COLON] + hex_text(g7 as nat))))))),
    }
}

/// `b` occurs nowhere in `s`.
pub open spec fn no_byte(s: Seq<u8>, b: u8) -> bool {
    forall|j: int| 0 <= j < s.len() ==> s[j] != b
}

/// A separator-free part, a different separator, and a separator-free rest
/// concatenate to a separator-free whole.
proof fn lemma_no_byte_concat(x: Seq<u8>, m: u8, y: Seq<u8>, b: u8)
    requires
        no_byte(x, b),
        no_byte(y, b),
        m != b,
    ensures
        no_byte(x + seq![m] + y, b),
{
    assert forall|j: int| 0 <= j < (x + seq![m] + y).len() implies (x + seq![m] + y)[j] != b by {
        if j < x.len() {
            assert((x + seq![m] + y)[j] == x[j]);
        } else if j == x.len() {
            assert((x + seq![m] + y)[j] == m);
        } else {
            assert((x + seq![m] + y)[j] == y[j - x.len() - 1]);
        }
    }
}

/// A byte that can occur in the canonical text of an address: a dot, a
/// colon, a decimal digit, or a lowercase hexadecimal letter.
pub open spec fn ip_text_byte(b: u8) -> bool {
    b == DOT || b == COLON || (48 <= b && b <= 57) || (97 <= b && b <= 102)
}

/// Every byte of `s` can occur in address text.
pub open spec fn all_ip_text_bytes(s: Seq<u8>) -> bool {
    forall|j: int| 0 <= j < s.len() ==> ip_text_byte(#[trigger] s[j])
}

/// Concatenating address-text parts around a separator keeps the class.
proof fn lemma_ip_text_bytes_concat(x: Seq<u8>, m: u8, y: Seq<u8>)
    requires
        all_ip_text_bytes(x),
        all_ip_text_bytes(y),
        ip_text_byte(m),
    ensures
        all_ip_text_bytes(x + seq![m] + y),
{
    assert forall|j: int| 0 <= j < (x + seq![m] + y).len() implies ip_text_byte(
        #[trigger] (x + seq![m] + y)[j],
    ) by {
        if j < x.len() {
            assert((x + seq![m] + y)[j] == x[j]);
        } else if j == x.len() {
            assert((x + seq![m] + y)[j] == m);
        } else {
            assert((x + seq![m] + y)[j] == y[j - x.len() - 1]);
        }
    }
}

/// The canonical text of an address consists of dots, colons, digits and
/// lowercase hexadecimal letters.
pub proof fn lemma_ip_text_bytes(ip: IpAddress)
    ensures
        all_ip_text_bytes(ip_text(ip)),
{
    match ip {
        IpAddress::V4 { a, b, c, d } => {
            lemma_dec_text_digits(a as nat);
            lemma_dec_text_digits(b as nat);
            lemma_dec_text_digits(c as nat);
            lemma_dec_text_digits(d as nat);
            let ta = dec_text(a as nat);
            let tb = dec_text(b as nat);
            let tc = dec_text(c as nat);
            let td = dec_text(d as nat);
            lemma_ip_text_bytes_concat(tc, DOT, td);
            lemma_ip_text_bytes_concat(tb, DOT, tc + seq![DOT] + td);
            lemma_ip_text_bytes_concat(ta, DOT, tb + seq![DOT] + (tc + seq![DOT] + td));
        },
        IpAddress::V6 { g0, g1, g2, g3, g4, g5, g6, g7 } => {
            crate::text::lemma_hex_text_class(g0 as nat);
            crate::text::lemma_hex_text_class(g1 as nat);
            crate::text::lemma_hex_text_class(g2 as nat);
            crate::text::lemma_hex_text_class(g3 as nat);
            crate::text::lemma_hex_text_class(g4 as nat);
            crate::text::lemma_hex_text_class(g5 as nat);
            crate::text::lemma_hex_text_class(g6 as nat);
            crate::text::lemma_hex_text_class(g7 as nat);
            let t0 = hex_text(g0 as nat);
            let t1 = hex_text(g1 as nat);
            let t2 = hex_text(g2 as nat);
            let t3 = hex_text(g3 as nat);
            let t4 = hex_text(g4 as nat);
            let t5 = hex_text(g5 as nat);
            let t6 = hex_text(g6 as nat);
            let t7 = hex_text(g7 as nat);
            let r6 = t6 + seq![COLON] + t7;
            let r5 = t5 + seq![COLON] + r6;
            let r4 = t4 + seq![COLON] + r5;
            let r3 = t3 + seq![COLON] + r4;
            let r2 = t2 + seq![COLON] + r3;
            let r1 = t1 + seq![COLON] + r2;
            lemma_ip_text_bytes_concat(t6, COLON, t7);
            lemma_ip_text_bytes_concat(t5, COLON, r6);
            lemma_ip_text_bytes_concat(t4, COLON, r5);
            lemma_ip_text_bytes_concat(t3, COLON, r4);
            lemma_ip_text_bytes_concat(t2, COLON, r3);
            lemma_ip_text_bytes_concat(t1, COLON, r2);
            lemma_ip_text_bytes_concat(t0, COLON, r1);
        },
    }
}

/// The canonical text of an address is at least seven bytes long.
pub proof fn lemma_ip_text_min_len(ip: IpAddress)
    ensures
        ip_text(ip).len() >= 7,
{
    match ip {
        IpAddress::V4 { a, b, c, d } => {
            lemma_dec_text_digits(a as nat);
            lemma_dec_text_digits(b as nat);
            lemma_dec_text_digits(c as nat);
            lemma_dec_text_digits(d as nat);
        },
        IpAddress::V6 { g0, g1, g2, g3, g4, g5, g6, g7 } => {
            lemma_hex_text_digits(g0 as nat);
            lemma_hex_text_digits(g1 as nat);
            lemma_hex_text_digits(g2 as nat);
            lemma_hex_text_digits(g3 as nat);
            lemma_hex_text_digits(g4 as nat);
            lemma_hex_text_digits(g5 as nat);
            lemma_hex_text_digits(g6 as nat);
            lemma_hex_text_digits(g7 as nat);
        },
    }
}

/// The canonical text of an address is ASCII.
pub proof fn lemma_ip_text_ascii(ip: IpAddress)
    ensures
        crate::text::all_ascii(ip_text(ip)),
{
    match ip {
        IpAddress::V4 { a, b, c, d } => {
            lemma_dec_text_digits(a as nat);
            lemma_dec_text_digits(b as nat);
            lemma_dec_text_digits(c as nat);
            lemma_dec_text_digits(d as nat);
        },
        IpAddress::V6 { g0, g1, g2, g3, g4, g5, g6, g7 } => {
            lemma_hex_text_digits(g0 as nat);
            lemma_hex_text_digits(g1 as nat);
            lemma_hex_text_digits(g2 as nat);
            lemma_hex_text_digits(g3 as nat);
            lemma_hex_text_digits(g4 as nat);
            lemma_hex_text_digits(g5 as nat);
            lemma_hex_text_digits(g6 as nat);
            lemma_hex_text_digits(g7 as nat);
        },
    }
}

/// Split `s` at every occurrence of `sep`, as executable code.
fn split_bytes(s: &[u8], sep: u8) -> (r: Vec<Vec<u8>>)
    ensures
        r@.len() == split_on(s@, sep).len(),
        forall|k: int| 0 <= k < r@.len() ==> #[trigger] r@[k]@ == split_on(s@, sep)[k],
    decreases s@.len(),
{
    match find_byte_at(s, sep) {
        None => {
            let mut out: Vec<Vec<u8>> = Vec::new();
            out.push(slice_to_vec(s));
            out
        },
        Some(i) => {
            proof {
                lemma_find_in(s@, sep);
            }
            let n = s.len();
            let head: Vec<u8> = slice_to_vec(slice_subrange_u8(s, 0, i));
            let tail = slice_subrange_u8(s, i + 1, n);
            let mut rest = split_bytes(tail, sep);
            rest.insert(0, head);
            proof {
                assert(s@.take(i as int) =~= s@.subrange(0, i as int));
                assert(s@.skip(i + 1) =~= s@.subrange(i + 1, s@.len() as int));
            }
            rest
        },
    }
}

/// A typed front for subslicing.
fn slice_subrange_u8(s: &[u8], from: usize, to: usize) -> (r: &[u8])
    requires
        0 <= from <= to <= s@.len(),
    ensures
        r@ == s@.subrange(from as int, to as int),
{
    vstd::slice::slice_subrange(s, from, to)
}

/// Parse a decimal octet; `None` exactly when `s` is not an acceptable
/// octet.
fn parse_dec_octet(s: &[u8]) -> (r: Option<u8>)
    ensures
        (match r {
            Some(v) => dec_octet_ok(s@) && v as nat == dec_value(s@),
            None => !dec_octet_ok(s@),
        }),
{
    if s.len() < 1 || s.len() > 3 {
        return None;
    }
    if s.len() > 1 && s[0] == 48 {
        return None;
    }
    match parse_dec_u16(s) {
        None => None,
        Some(v) => if v <= 255 {
            Some(v as u8)
        } else {
            None
        },
    }
}

/// Parse the text of an address; `None` exactly when it has neither the
/// dotted-quad nor the eight-group colon-hex shape.
pub fn parse_ip(s: &[u8]) -> (r: Option<IpAddress>)
    ensures
        r == ip_parse(s@),
{
    let dotted = split_bytes(s, DOT);
    if dotted.len() == 4 {
        let a = parse_dec_octet(dotted[0].as_slice());
        let b = parse_dec_octet(dotted[1].as_slice());
        let c = parse_dec_octet(dotted[2].as_slice());
        let d = parse_dec_octet(dotted[3].as_slice());
        if a.is_some() && b.is_some() && c.is_some() && d.is_some() {
            return Some(
                IpAddress::V4 {
                    a: a.unwrap(),
                    b: b.unwrap(),
                    c: c.unwrap(),
                    d: d.unwrap(),
                },
            );
        }
    }
    parse_ip_v6(s)
}

/// Parse the eight-group colon-hex form of an IPv6 address.
fn parse_ip_v6(s: &[u8]) -> (r: Option<IpAddress>)
    requires
        ipv4_from_parts(split_on(s@, DOT)) is None,
    ensures
        r == ip_parse(s@),
{
    let parts = split_bytes(s, COLON);
    if parts.len() != 8 {
        return None;
    }
    let mut groups: Vec<u16> = Vec::new();
    let mut k: usize = 0;
    while k < 8
        invariant
            ipv4_from_parts(split_on(s@, DOT)) is None,
            parts@.len() == 8,
            split_on(s@, COLON).len() == 8,
            forall|j: int| 0 <= j < 8 ==> #[trigger] parts@[j]@ == split_on(s@, COLON)[j],
            0 <= k <= 8,
            groups@.len() == k,
            forall|j: int|
                0 <= j < k ==> hex_group_ok(#[trigger] split_on(s@, COLON)[j]) && groups@[j]
                    as nat == hex_value(split_on(s@, COLON)[j]),
        decreases 8 - k,
    {
        match parse_hex_group(parts[k].as_slice()) {
            None => {
                proof {
                    assert(!hex_group_ok(split_on(s@, COLON)[k as int]));
                }
                return None;
            },
            Some(v) => {
                groups.push(v);
            },
        }
        k = k + 1;
    }
    Some(
        IpAddress::V6 {
            g0: groups[0],
            g1: groups[1],
            g2: groups[2],
            g3: groups[3],
            g4: groups[4],
            g5: groups[5],
            g6: groups[6],
            g7: groups[7],
        },
    )
}

/// Canonical text of an address, as bytes.
#[verifier::rlimit(50)]
pub fn format_ip(ip: &IpAddress) -> (r: Vec<u8>)
    ensures
        r@ == ip_text(*ip),
{
    match ip {
        IpAddress::V4 { a, b, c, d } => {
            let mut out = format_u16(*a as u16);
            out.push(DOT);
            let mut tb = format_u16(*b as u16);
            out.append(&mut tb);
            out.push(DOT);
            let mut tc = format_u16(*c as u16);
            out.append(&mut tc);
            out.push(DOT);
            let mut td = format_u16(*d as u16);
            out.append(&mut td);
            assert(out@ =~= ip_text(*ip));
            out
        },
        IpAddress::V6 { g0, g1, g2, g3, g4, g5, g6, g7 } => {
            let mut out = format_u16_hex(*g0);
            out.push(COLON);
            let mut t = format_u16_hex(*g1);
            out.append(&mut t);
            out.push(COLON);
            let mut t = format_u16_hex(*g2);
            out.append(&mut t);
            out.push(COLON);
            let mut t = format_u16_hex(*g3);
            out.append(&mut t);
            out.push(COLON);
            let mut t = format_u16_hex(*g4);
            out.append(&mut t);
            out.push(COLON);
            let mut t = format_u16_hex(*g5);
            out.append(&mut t);
            out.push(COLON);
            let mut t = format_u16_hex(*g6);
            out.append(&mut t);
            out.push(COLON);
            let mut t = format_u16_hex(*g7);
            out.append(&mut t);
            assert(out@ =~= ip_text(*ip));
            out
        },
    }
}

/// Parsing the canonical text of an address gives the address back.
pub proof fn lemma_ip_text_round_trip(ip: IpAddress)
    ensures
        ip_parse(ip_text(ip)) == Some(ip),
{
    match ip {
        IpAddress::V4 { a, b, c, d } => {
            lemma_v4_round_trip(a, b, c, d);
        },
        IpAddress::V6 { g0, g1, g2, g3, g4, g5, g6, g7 } => {
            lemma_v6_round_trip(g0, g1, g2, g3, g4, g5, g6, g7);
        },
    }
}

/// A canonical octet text is an acceptable octet worth the octet itself.
proof fn lemma_octet_text(n: u8)
    ensures
        dec_octet_ok(dec_text(n as nat)),
        dec_value(dec_text(n as nat)) == n as nat,
        forall|j: int|
            0 <= j < dec_text(n as nat).len() ==> #[trigger] dec_text(n as nat)[j] != DOT
                && dec_text(n as nat)[j] != COLON,
{
    lemma_dec_text_digits(n as nat);
    lemma_pow10_values();
    lemma_dec_text_len(n as nat, 3);
    lemma_dec_text_no_leading_zero(n as nat);
    lemma_dec_round_trip(n as nat);
    assert forall|j: int| 0 <= j < dec_text(n as nat).len() implies #[trigger] dec_text(
        n as nat,
    )[j] != DOT && dec_text(n as nat)[j] != COLON by {
        assert(is_dec_digit(dec_text(n as nat)[j]));
    }
}

proof fn lemma_v4_round_trip(a: u8, b: u8, c: u8, d: u8)
    ensures
        ip_parse(ip_text(IpAddress::V4 { a, b, c, d })) == Some(IpAddress::V4 { a, b, c, d }),
{
    let ta = dec_text(a as nat);
    let tb = dec_text(b as nat);
    let tc = dec_text(c as nat);
    let td = dec_text(d as nat);
    lemma_octet_text(a);
    lemma_octet_text(b);
    lemma_octet_text(c);
    lemma_octet_text(d);
    let s = ip_text(IpAddress::V4 { a, b, c, d });
    let r2 = tc + seq![DOT] + td;
    let r1 = tb + seq![DOT] + r2;
    assert(s == ta + seq![DOT] + r1);
    lemma_split_concat(ta, r1, DOT);
    lemma_split_concat(tb, r2, DOT);
    lemma_split_concat(tc, td, DOT);
    lemma_split_no_sep(td, DOT);
    let parts = split_on(s, DOT);
    assert(parts =~= seq![ta, tb, tc, td]);
    assert(ipv4_from_parts(parts) == Some(IpAddress::V4 { a, b, c, d }));
}

/// A canonical group text is an acceptable group worth the group itself.
proof fn lemma_group_text(n: u16)
    ensures
        hex_group_ok(hex_text(n as nat)),
        hex_value(hex_text(n as nat)) == n as nat,
        forall|j: int|
            0 <= j < hex_text(n as nat).len() ==> #[trigger] hex_text(n as nat)[j] != COLON
                && hex_text(n as nat)[j] != DOT,
{
    lemma_hex_text_digits(n as nat);
    lemma_hex_round_trip(n as nat);
    assert forall|j: int| 0 <= j < hex_text(n as nat).len() implies #[trigger] hex_text(
        n as nat,
    )[j] != COLON && hex_text(n as nat)[j] != DOT by {
        assert(is_hex_digit(hex_text(n as nat)[j]));
    }
}

proof fn lemma_v6_round_trip(g0: u16, g1: u16, g2: u16, g3: u16, g4: u16, g5: u16, g6: u16, g7: u16)
    ensures
        ip_parse(ip_text(IpAddress::V6 { g0, g1, g2, g3, g4, g5, g6, g7 })) == Some(
            IpAddress::V6 { g0, g1, g2, g3, g4, g5, g6, g7 },
        ),
{
    let t0 = hex_text(g0 as nat);
    let t1 = hex_text(g1 as nat);
    let t2 = hex_text(g2 as nat);
    let t3 = hex_text(g3 as nat);
    let t4 = hex_text(g4 as nat);
    let t5 = hex_text(g5 as nat);
    let t6 = hex_text(g6 as nat);
    let t7 = hex_text(g7 as nat);
    lemma_group_text(g0);
    lemma_group_text(g1);
    lemma_group_text(g2);
    lemma_group_text(g3);
    lemma_group_text(g4);
    lemma_group_text(g5);
    lemma_group_text(g6);
    lemma_group_text(g7);
    let s = ip_text(IpAddress::V6 { g0, g1, g2, g3, g4, g5, g6, g7 });
    let r6 = t6 + seq![COLON] + t7;
    let r5 = t5 + seq![COLON] + r6;
    let r4 = t4 + seq![COLON] + r5;
    let r3 = t3 + seq![COLON] + r4;
    let r2 = t2 + seq![COLON] + r3;
    let r1 = t1 + seq![COLON] + r2;
    assert(s == t0 + seq![COLON] + r1);
    lemma_split_concat(t0, r1, COLON);
    lemma_split_concat(t1, r2, COLON);
    lemma_split_concat(t2, r3, COLON);
    lemma_split_concat(t3, r4, COLON);
    lemma_split_concat(t4, r5, COLON);
    lemma_split_concat(t5, r6, COLON);
    lemma_split_concat(t6, t7, COLON);
    lemma_split_no_sep(t7, COLON);
    let cparts = split_on(s, COLON);
    assert(cparts =~= seq![t0, t1, t2, t3, t4, t5, t6, t7]);
    assert(ipv6_from_parts(cparts) == Some(IpAddress::V6 { g0, g1, g2, g3, g4, g5, g6, g7 }));
    lemma_no_byte_concat(t6, COLON, t7, DOT);
    lemma_no_byte_concat(t5, COLON, r6, DOT);
    lemma_no_byte_concat(t4, COLON, r5, DOT);
    lemma_no_byte_concat(t3, COLON, r4, DOT);
    lemma_no_byte_concat(t2, COLON, r3, DOT);
    lemma_no_byte_concat(t1, COLON, r2, DOT);
    lemma_no_byte_concat(t0, COLON, r1, DOT);
    lemma_split_no_sep(s, DOT);
    assert(split_on(s, DOT).len() == 1);
}

} // verus!
