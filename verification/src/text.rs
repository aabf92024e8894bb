//! Decimal and hexadecimal text over ASCII byte sequences.
//!
//! Port values in the filter grammar are decimal; the groups of an IPv6
//! address are hexadecimal.  Everything here is stated over `Seq<u8>`, the
//! byte view of the ASCII text involved.

use vstd::arithmetic::div_mod::lemma_fundamental_div_mod;
use vstd::prelude::*;
use vstd::utf8::encode_utf8;
use vstd::utf8::is_ascii_chars;
use vstd::utf8::is_ascii_chars_encode_utf8;

verus! {

/// The characters of an ASCII byte sequence, one per byte.
pub open spec fn ascii_chars(bs: Seq<u8>) -> Seq<char> {
    bs.map_values(|b: u8| b as char)
}

/// Every byte of `bs` is ASCII.
pub open spec fn all_ascii(bs: Seq<u8>) -> bool {
    forall|i: int| 0 <= i < bs.len() ==> #[trigger] bs[i] < 128
}

/// An ASCII byte sequence and its character sequence encode each other.
pub proof fn lemma_ascii_chars_bytes(bs: Seq<u8>)
    requires
        all_ascii(bs),
    ensures
        is_ascii_chars(ascii_chars(bs)),
        encode_utf8(ascii_chars(bs)) =~= bs,
{
    assert forall|i: int| 0 <= i < ascii_chars(bs).len() implies '\0' <= #[trigger] ascii_chars(
        bs,
    )[i] <= '\u{7f}' by {
        assert(bs[i] < 128);
    }
    is_ascii_chars_encode_utf8(ascii_chars(bs));
    assert forall|i: int| 0 <= i < bs.len() implies encode_utf8(ascii_chars(bs))[i] == bs[i] by {
        assert(ascii_chars(bs)[i] == bs[i] as char);
    }
}

/// Relies on `String::from_utf8`: a vector of ASCII bytes decodes to the
/// string of exactly those characters, one per byte.
#[verifier::external_body]
fn ascii_to_string(bytes: Vec<u8>) -> (r: String)
    requires
        all_ascii(bytes@),
    ensures
        r@ == ascii_chars(bytes@),
{
    match String::from_utf8(bytes) {
        Ok(s) => s,
        Err(_) => String::new(),
    }
}

/// Turn ASCII bytes into the string of the same characters; the byte view of
/// the result is the input again.
pub fn bytes_to_string(bytes: Vec<u8>) -> (r: String)
    requires
        all_ascii(bytes@),
    ensures
        r@ == ascii_chars(bytes@),
        r@.len() == bytes@.len(),
        encode_utf8(r@) == bytes@,
{
    proof {
        lemma_ascii_chars_bytes(bytes@);
    }
    ascii_to_string(bytes)
}

/// `b` is an ASCII decimal digit.
pub open spec fn is_dec_digit(b: u8) -> bool {
    48 <= b && b <= 57
}

/// Numeric value of a decimal digit.
pub open spec fn dec_digit_val(b: u8) -> nat {
    (b - 48) as nat
}

/// Every byte of `s` is a decimal digit.
pub open spec fn all_dec_digits(s: Seq<u8>) -> bool {
    forall|i: int| 0 <= i < s.len() ==> is_dec_digit(#[trigger] s[i])
}

/// Value of a decimal digit string, most significant digit first.
pub open spec fn dec_value(s: Seq<u8>) -> nat
    decreases s.len(),
{
    if s.len() == 0 {
        0
    } else {
        dec_value(s.drop_last()) * 10 + dec_digit_val(s.last())
    }
}

/// Canonical decimal text of `n`: no sign, no leading zeros.
pub open spec fn dec_text(n: nat) -> Seq<u8>
    decreases n,
{
    if n < 10 {
        seq![(48 + n) as u8]
    } else {
        dec_text(n / 10).push((48 + (n % 10)) as u8)
    }
}

/// `s` is an acceptable decimal numeral for a 16-bit value: nonempty, all
/// digits (leading zeros allowed), value at most 65535.
pub open spec fn dec_u16_ok(s: Seq<u8>) -> bool {
    s.len() >= 1 && all_dec_digits(s) && dec_value(s) <= 65535
}

/// The canonical decimal text consists of digits and is nonempty.
pub proof fn lemma_dec_text_digits(n: nat)
    ensures
        dec_text(n).len() >= 1,
        all_dec_digits(dec_text(n)),
    decreases n,
{
    if n >= 10 {
        lemma_dec_text_digits(n / 10);
        assert forall|i: int| 0 <= i < dec_text(n).len() implies is_dec_digit(
            #[trigger] dec_text(n)[i],
        ) by {
            if i < dec_text(n / 10).len() {
                assert(dec_text(n)[i] == dec_text(n / 10)[i]);
            }
        }
    }
}

/// Reading back the canonical decimal text gives the number itself.
pub proof fn lemma_dec_round_trip(n: nat)
    ensures
        dec_value(dec_text(n)) == n,
    decreases n,
{
    if n < 10 {
        assert(dec_value(Seq::<u8>::empty()) == 0);
        assert(dec_text(n).drop_last() =~= Seq::<u8>::empty());
        assert(dec_text(n).last() == (48 + n) as u8);
        assert(dec_digit_val((48 + n) as u8) == n);
    } else {
        lemma_dec_round_trip(n / 10);
        assert(dec_text(n).drop_last() =~= dec_text(n / 10));
        assert(dec_text(n).last() == (48 + (n % 10)) as u8);
        assert(dec_digit_val((48 + (n % 10)) as u8) == n % 10);
        lemma_fundamental_div_mod(n as int, 10);
    }
}

/// A digit string is worth at least as much as any of its prefixes.
pub proof fn lemma_dec_value_prefix(s: Seq<u8>, k: int)
    requires
        0 <= k <= s.len(),
    ensures
        dec_value(s.take(k)) <= dec_value(s),
    decreases s.len() - k,
{
    if k < s.len() {
        lemma_dec_value_prefix(s, k + 1);
        assert(s.take(k + 1).drop_last() =~= s.take(k));
        assert(dec_value(s.take(k + 1)) == dec_value(s.take(k)) * 10 + dec_digit_val(
            s.take(k + 1).last(),
        ));
        assert(dec_value(s.take(k)) * 10 >= dec_value(s.take(k))) by (nonlinear_arith);
    } else {
        assert(s.take(k) =~= s);
    }
}

/// Ten to the power `k`.
pub open spec fn pow10(k: nat) -> nat
    decreases k,
{
    if k == 0 {
        1
    } else {
        10 * pow10((k - 1) as nat)
    }
}

/// The first few powers of ten, spelled out.
pub proof fn lemma_pow10_values()
    ensures
        pow10(0) == 1,
        pow10(1) == 10,
        pow10(2) == 100,
        pow10(3) == 1000,
        pow10(4) == 10000,
        pow10(5) == 100000,
{
    reveal_with_fuel(pow10, 6);
}

/// A value below ten to the `k` needs at most `k` decimal digits.
pub proof fn lemma_dec_text_len(n: nat, k: nat)
    requires
        1 <= k,
        n < pow10(k),
    ensures
        dec_text(n).len() <= k,
    decreases n,
{
    if n >= 10 {
        lemma_fundamental_div_mod(n as int, 10);
        assert(k >= 2) by {
            lemma_pow10_values();
        }
        assert(pow10(k) == 10 * pow10((k - 1) as nat));
        assert(n / 10 < pow10((k - 1) as nat)) by (nonlinear_arith)
            requires
                n < 10 * pow10((k - 1) as nat),
                n == 10 * (n / 10) + n % 10,
                n % 10 >= 0,
        ;
        lemma_dec_text_len(n / 10, (k - 1) as nat);
    }
}

/// Canonical decimal text never starts with a zero digit unless it is the
/// single digit zero.
pub proof fn lemma_dec_text_no_leading_zero(n: nat)
    ensures
        dec_text(n).len() > 1 ==> dec_text(n)[0] != 48,
    decreases n,
{
    if n >= 10 {
        lemma_dec_text_no_leading_zero(n / 10);
        lemma_dec_text_digits(n / 10);
        assert(dec_text(n)[0] == dec_text(n / 10)[0]);
        lemma_fundamental_div_mod(n as int, 10);
        if n / 10 < 10 {
            assert(dec_text(n / 10) =~= seq![(48 + n / 10) as u8]);
            assert(n / 10 >= 1);
        } else {
            lemma_dec_text_digits(n / 10 / 10);
            assert(dec_text(n / 10).len() > 1);
        }
    }
}

/// Append the canonical decimal text of `n` to `out`.
fn push_dec_u16(n: u16, out: &mut Vec<u8>)
    ensures
        final(out)@ == old(out)@ + dec_text(n as nat),
    decreases n,
{
    if n < 10 {
        out.push(48 + n as u8);
        assert(final(out)@ =~= old(out)@ + dec_text(n as nat));
    } else {
        push_dec_u16(n / 10, out);
        out.push(48 + (n % 10) as u8);
        assert(final(out)@ =~= old(out)@ + dec_text(n as nat));
    }
}

/// Canonical decimal text of a 16-bit value.
pub fn format_u16(n: u16) -> (r: Vec<u8>)
    ensures
        r@ == dec_text(n as nat),
{
    let mut out: Vec<u8> = Vec::new();
    push_dec_u16(n, &mut out);
    assert(out@ =~= dec_text(n as nat));
    out
}

/// Parse a decimal numeral as a 16-bit value; `None` exactly when `s` is not
/// a nonempty digit string worth at most 65535.
pub fn parse_dec_u16(s: &[u8]) -> (r: Option<u16>)
    ensures
        (match r {
            Some(v) => dec_u16_ok(s@) && v as nat == dec_value(s@),
            None => !dec_u16_ok(s@),
        }),
{
    if s.len() == 0 {
        return None;
    }
    let mut acc: u16 = 0;
    let mut i: usize = 0;
    while i < s.len()
        invariant
            0 <= i <= s@.len(),
            all_dec_digits(s@.take(i as int)),
            acc as nat == dec_value(s@.take(i as int)),
        decreases s@.len() - i,
    {
        let b = s[i];
        if !(48 <= b && b <= 57) {
            assert(!all_dec_digits(s@));
            return None;
        }
        let d: u16 = (b - 48) as u16;
        if acc > 6553 || (acc == 6553 && d > 5) {
            proof {
                assert(s@.take(i + 1).drop_last() =~= s@.take(i as int));
                assert(dec_value(s@.take(i + 1)) == acc as nat * 10 + d);
                lemma_dec_value_prefix(s@, i + 1);
            }
            return None;
        }
        proof {
            assert(s@.take(i + 1).drop_last() =~= s@.take(i as int));
        }
        acc = acc * 10 + d;
        i = i + 1;
    }
    assert(s@.take(i as int) =~= s@);
    Some(acc)
}

/// `b` is an ASCII hexadecimal digit, either case.
pub open spec fn is_hex_digit(b: u8) -> bool {
    (48 <= b && b <= 57) || (97 <= b && b <= 102) || (65 <= b && b <= 70)
}

/// Numeric value of a hexadecimal digit.
pub open spec fn hex_digit_val(b: u8) -> nat {
    if 48 <= b && b <= 57 {
        (b - 48) as nat
    } else if 97 <= b && b <= 102 {
        (b - 87) as nat
    } else {
        (b - 55) as nat
    }
}

/// Every byte of `s` is a hexadecimal digit.
pub open spec fn all_hex_digits(s: Seq<u8>) -> bool {
    forall|i: int| 0 <= i < s.len() ==> is_hex_digit(#[trigger] s[i])
}

/// Value of a hexadecimal digit string, most significant digit first.
pub open spec fn hex_value(s: Seq<u8>) -> nat
    decreases s.len(),
{
    if s.len() == 0 {
        0
    } else {
        hex_value(s.drop_last()) * 16 + hex_digit_val(s.last())
    }
}

/// Canonical hexadecimal text of `n`: lowercase, no leading zeros.
pub open spec fn hex_text(n: nat) -> Seq<u8>
    decreases n,
{
    if n < 16 {
        seq![hex_digit_text(n)]
    } else {
        hex_text(n / 16).push(hex_digit_text(n % 16))
    }
}

/// Lowercase digit for a value below 16.
pub open spec fn hex_digit_text(d: nat) -> u8 {
    if d < 10 {
        (48 + d) as u8
    } else {
        (87 + d) as u8
    }
}

/// `s` is an acceptable hexadecimal group of an IPv6 address: one to four
/// hexadecimal digits.
pub open spec fn hex_group_ok(s: Seq<u8>) -> bool {
    1 <= s.len() <= 4 && all_hex_digits(s)
}

/// The canonical hexadecimal text consists of digits; for a 16-bit value it
/// has between one and four of them.
pub proof fn lemma_hex_text_digits(n: nat)
    ensures
        hex_text(n).len() >= 1,
        all_hex_digits(hex_text(n)),
        n <= 0xffff ==> hex_text(n).len() <= 4,
    decreases n,
{
    if n >= 16 {
        lemma_hex_text_digits(n / 16);
        assert forall|i: int| 0 <= i < hex_text(n).len() implies is_hex_digit(
            #[trigger] hex_text(n)[i],
        ) by {
            if i < hex_text(n / 16).len() {
                assert(hex_text(n)[i] == hex_text(n / 16)[i]);
            }
        }
    }
    if n <= 0xffff {
        lemma_pow16_values();
        lemma_hex_text_len(n, 4);
    }
}

/// A value below sixteen to the `k` needs at most `k` hexadecimal digits.
proof fn lemma_hex_text_len(n: nat, k: nat)
    requires
        1 <= k,
        n < pow16(k),
    ensures
        hex_text(n).len() <= k,
    decreases n,
{
    if n >= 16 {
        lemma_fundamental_div_mod(n as int, 16);
        assert(k >= 2) by {
            lemma_pow16_values();
        }
        assert(pow16(k) == 16 * pow16((k - 1) as nat));
        assert(n / 16 < pow16((k - 1) as nat)) by (nonlinear_arith)
            requires
                n < 16 * pow16((k - 1) as nat),
                n == 16 * (n / 16) + n % 16,
                n % 16 >= 0,
        ;
        lemma_hex_text_len(n / 16, (k - 1) as nat);
    }
}

/// The first few powers of sixteen, spelled out.
proof fn lemma_pow16_values()
    ensures
        pow16(0) == 1,
        pow16(1) == 16,
        pow16(2) == 256,
        pow16(3) == 4096,
        pow16(4) == 65536,
{
    reveal_with_fuel(pow16, 5);
}

/// The canonical hexadecimal text uses digits and lowercase letters only.
pub proof fn lemma_hex_text_class(n: nat)
    ensures
        forall|j: int|
            0 <= j < hex_text(n).len() ==> (48 <= #[trigger] hex_text(n)[j] <= 57 || 97 <= hex_text(
                n,
            )[j] <= 102),
    decreases n,
{
    if n < 16 {
        assert(hex_text(n)[0] == hex_digit_text(n));
    } else {
        lemma_hex_text_class(n / 16);
        assert forall|j: int|
            0 <= j < hex_text(n).len() implies (48 <= #[trigger] hex_text(n)[j] <= 57 || 97
            <= hex_text(n)[j] <= 102) by {
            if j < hex_text(n / 16).len() {
                assert(hex_text(n)[j] == hex_text(n / 16)[j]);
            } else {
                assert(hex_text(n)[j] == hex_digit_text(n % 16));
            }
        }
    }
}

/// Reading back the canonical hexadecimal text gives the number itself.
pub proof fn lemma_hex_round_trip(n: nat)
    ensures
        hex_value(hex_text(n)) == n,
    decreases n,
{
    if n < 16 {
        assert(hex_value(Seq::<u8>::empty()) == 0);
        assert(hex_text(n).drop_last() =~= Seq::<u8>::empty());
        assert(hex_text(n).last() == hex_digit_text(n));
        assert(hex_digit_val(hex_digit_text(n)) == n);
    } else {
        lemma_hex_round_trip(n / 16);
        assert(hex_text(n).drop_last() =~= hex_text(n / 16));
        assert(hex_text(n).last() == hex_digit_text(n % 16));
        assert(hex_digit_val(hex_digit_text(n % 16)) == n % 16);
        lemma_fundamental_div_mod(n as int, 16);
    }
}

/// Append the canonical hexadecimal text of `n` to `out`.
fn push_hex_u16(n: u16, out: &mut Vec<u8>)
    ensures
        final(out)@ == old(out)@ + hex_text(n as nat),
    decreases n,
{
    if n < 16 {
        let d: u8 = if n < 10 {
            48 + n as u8
        } else {
            87 + n as u8
        };
        assert(d == hex_digit_text(n as nat));
        out.push(d);
        assert(final(out)@ =~= old(out)@ + hex_text(n as nat));
    } else {
        push_hex_u16(n / 16, out);
        let m: u16 = n % 16;
        let d: u8 = if m < 10 {
            48 + m as u8
        } else {
            87 + m as u8
        };
        assert(d == hex_digit_text((n % 16) as nat));
        out.push(d);
        assert(final(out)@ =~= old(out)@ + hex_text(n as nat));
    }
}

/// Canonical hexadecimal text of a 16-bit value.
pub fn format_u16_hex(n: u16) -> (r: Vec<u8>)
    ensures
        r@ == hex_text(n as nat),
{
    let mut out: Vec<u8> = Vec::new();
    push_hex_u16(n, &mut out);
    assert(out@ =~= hex_text(n as nat));
    out
}

/// Parse a hexadecimal group of an IPv6 address; `None` exactly when `s` is
/// not a string of one to four hexadecimal digits.
pub fn parse_hex_group(s: &[u8]) -> (r: Option<u16>)
    ensures
        (match r {
            Some(v) => hex_group_ok(s@) && v as nat == hex_value(s@),
            None => !hex_group_ok(s@),
        }),
{
    if s.len() == 0 || s.len() > 4 {
        return None;
    }
    let mut acc: u16 = 0;
    let mut i: usize = 0;
    while i < s.len()
        invariant
            0 <= i <= s@.len(),
            s@.len() <= 4,
            all_hex_digits(s@.take(i as int)),
            acc as nat == hex_value(s@.take(i as int)),
            (acc as nat) < pow16(i as nat),
        decreases s@.len() - i,
    {
        let b = s[i];
        let d: u16;
        if 48 <= b && b <= 57 {
            d = (b - 48) as u16;
        } else if 97 <= b && b <= 102 {
            d = (b - 87) as u16;
        } else if 65 <= b && b <= 70 {
            d = (b - 55) as u16;
        } else {
            assert(!all_hex_digits(s@));
            return None;
        }
        proof {
            assert(s@.take(i + 1).drop_last() =~= s@.take(i as int));
            assert(pow16((i + 1) as nat) == 16 * pow16(i as nat));
            assert(acc as nat * 16 + d < 16 * pow16(i as nat)) by (nonlinear_arith)
                requires
                    (acc as nat) < pow16(i as nat),
                    d < 16,
            ;
            lemma_pow16_increases((i + 1) as nat, 4);
            lemma_pow16_values();
        }
        acc = acc * 16 + d;
        i = i + 1;
    }
    assert(s@.take(i as int) =~= s@);
    Some(acc)
}

/// Sixteen to the power `k`.
pub open spec fn pow16(k: nat) -> nat
    decreases k,
{
    if k == 0 {
        1
    } else {
        16 * pow16((k - 1) as nat)
    }
}

proof fn lemma_pow16_increases(a: nat, b: nat)
    requires
        a <= b,
    ensures
        pow16(a) <= pow16(b),
    decreases b,
{
    if a < b {
        lemma_pow16_increases(a, (b - 1) as nat);
        assert(pow16(b) == 16 * pow16((b - 1) as nat));
        assert(pow16((b - 1) as nat) <= 16 * pow16((b - 1) as nat)) by (nonlinear_arith)
            requires
                pow16((b - 1) as nat) >= 0,
        ;
    }
}

} // verus!
