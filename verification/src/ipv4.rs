//! IPv4 addresses: the four octets, their 32-bit value and the dotted-decimal
//! text form (parsing and formatting).

use vstd::prelude::*;
use crate::text::{
    all_digits, decimal_value, lemma_decimal_value_nonneg, digit_char, digit_value, is_digit, chars_of, join_with, lemma_join_split, lemma_split_on_concat, lemma_split_on_no_sep, split_chars,
    split_on,
};

verus! {

/// An IPv4 address, held as its four octets in network order.
#[derive(Clone, Copy, Debug, PartialEq, Eq, Structural, Hash)]
pub struct Ipv4Addr {
    pub first: u8,
    pub second: u8,
    pub third: u8,
    pub fourth: u8,
}

/// One octet of dotted-decimal text: one to three digits, no leading zero
/// unless the octet is the single digit `0`, and a value of at most 255.
pub open spec fn spec_parse_octet(s: Seq<char>) -> Option<u8> {
    if 1 <= s.len() <= 3 && all_digits(s) && !(s.len() > 1 && s[0] == '0')
        && decimal_value(s) <= 255 {
        Some(decimal_value(s) as u8)
    } else {
        None
    }
}

/// Dotted-decimal text: exactly four octets separated by `.`, nothing else.
pub open spec fn spec_parse_ipv4(s: Seq<char>) -> Option<Ipv4Addr> {
    let parts = split_on(s, '.');
    if parts.len() == 4 && spec_parse_octet(parts[0]) is Some && spec_parse_octet(parts[1]) is Some
        && spec_parse_octet(parts[2]) is Some && spec_parse_octet(parts[3]) is Some {
        Some(
            Ipv4Addr {
                first: spec_parse_octet(parts[0])->0,
                second: spec_parse_octet(parts[1])->0,
                third: spec_parse_octet(parts[2])->0,
                fourth: spec_parse_octet(parts[3])->0,
            },
        )
    } else {
        None
    }
}

/// The shortest decimal text of an octet.
pub open spec fn octet_text(n: u8) -> Seq<char> {
    let v = n as int;
    if v < 10 {
        seq![digit_char(v)]
    } else if v < 100 {
        seq![digit_char(v / 10), digit_char(v % 10)]
    } else {
        seq![digit_char(v / 100), digit_char((v / 10) % 10), digit_char(v % 10)]
    }
}

/// The dotted-decimal text of an address, as `Display` writes it.
pub open spec fn ipv4_text(ip: Ipv4Addr) -> Seq<char> {
    octet_text(ip.first) + seq!['.'] + octet_text(ip.second) + seq!['.'] + octet_text(ip.third)
        + seq!['.'] + octet_text(ip.fourth)
}

/// The big-endian 32-bit value of four octets.
pub open spec fn octets_value(a: u8, b: u8, c: u8, d: u8) -> int {
    a * 16777216 + b * 65536 + c * 256 + d
}

impl Ipv4Addr {
    pub fn new(a: u8, b: u8, c: u8, d: u8) -> (ip: Ipv4Addr)
        ensures
            ip == (Ipv4Addr { first: a, second: b, third: c, fourth: d }),
    {
        Ipv4Addr { first: a, second: b, third: c, fourth: d }
    }

    pub fn octets(&self) -> (o: [u8; 4])
        ensures
            o@ == seq![self.first, self.second, self.third, self.fourth],
    {
        [self.first, self.second, self.third, self.fourth]
    }

    pub open spec fn value(self) -> int {
        octets_value(self.first, self.second, self.third, self.fourth)
    }

    /// The address as a big-endian `u32` (as `u32::from` gives it).
    pub fn to_u32(&self) -> (v: u32)
        ensures
            v as int == self.value(),
    {
        ipv4_as_u32(self.first, self.second, self.third, self.fourth)
    }

    /// The dotted-decimal text of the address.
    pub fn to_string(&self) -> (s: String)
        ensures
            s@ == ipv4_text(*self),
    {
        let mut s = String::new();
        push_octet(&mut s, self.first);
        s.append(".");
        push_octet(&mut s, self.second);
        s.append(".");
        push_octet(&mut s, self.third);
        s.append(".");
        push_octet(&mut s, self.fourth);
        proof {
            reveal_strlit(".");
        }
        s
    }
}

proof fn lemma_digit_char(d: int)
    requires
        0 <= d < 10,
    ensures
        is_digit(digit_char(d)),
        digit_value(digit_char(d)) == d,
        digit_char(d) != '.',
{
    assert((d + '0' as int) as char as int == d + '0' as int);
}

proof fn lemma_digit_value(c: char)
    requires
        is_digit(c),
    ensures
        0 <= digit_value(c) < 10,
        digit_char(digit_value(c)) == c,
{
    assert((c as int) as char == c);
}

proof fn lemma_octet_text_parses(n: u8)
    ensures
        spec_parse_octet(octet_text(n)) == Some(n),
        !octet_text(n).contains('.'),
{
    let t = octet_text(n);
    let v = n as int;
    lemma_digit_char(v % 10);
    lemma_digit_char((v / 10) % 10);
    lemma_digit_char(v / 100);
    lemma_digit_char(0);
    assert(decimal_value(Seq::<char>::empty()) == 0);
    if v < 10 {
        lemma_digit_char(v);
        assert(t.drop_last() =~= Seq::<char>::empty());
        assert(decimal_value(t) == v);
    } else if v < 100 {
        lemma_digit_char(v / 10);
        assert(t.drop_last() =~= seq![digit_char(v / 10)]);
        assert(t.drop_last().drop_last() =~= Seq::<char>::empty());
        assert(decimal_value(t.drop_last()) == v / 10);
        assert(decimal_value(t) == (v / 10) * 10 + v % 10);
        assert(t[0] != '0') by {
            if t[0] == '0' {
                assert(digit_value(t[0]) == 0);
            }
        }
    } else {
        let (d0, d1, d2) = (v / 100, (v / 10) % 10, v % 10);
        assert(t.drop_last() =~= seq![digit_char(d0), digit_char(d1)]);
        assert(t.drop_last().drop_last() =~= seq![digit_char(d0)]);
        assert(t.drop_last().drop_last().drop_last() =~= Seq::<char>::empty());
        assert(decimal_value(t.drop_last().drop_last()) == d0);
        assert(decimal_value(t.drop_last()) == d0 * 10 + d1);
        assert(decimal_value(t) == (d0 * 10 + d1) * 10 + d2);
        assert((d0 * 10 + d1) * 10 + d2 == v) by (nonlinear_arith)
            requires
                d0 == v / 100,
                d1 == (v / 10) % 10,
                d2 == v % 10,
                100 <= v < 256,
        ;
        assert(t[0] != '0') by {
            if t[0] == '0' {
                assert(digit_value(t[0]) == 0);
            }
        }
    }
    assert(all_digits(t));
    assert(!t.contains('.')) by {
        if t.contains('.') {
            let k = choose|k: int| 0 <= k < t.len() && t[k] == '.';
            assert(is_digit(t[k]));
        }
    }
}

proof fn lemma_octet_canonical(p: Seq<char>)
    requires
        spec_parse_octet(p) is Some,
    ensures
        octet_text(spec_parse_octet(p)->0) == p,
{
    let n = spec_parse_octet(p)->0;
    let v = n as int;
    lemma_decimal_value_nonneg(p);
    assert(decimal_value(Seq::<char>::empty()) == 0);
    assert(v == decimal_value(p));
    assert(is_digit(p[0]));
    lemma_digit_value(p[0]);
    let d0 = digit_value(p[0]);
    if p.len() == 1 {
        assert(p.drop_last() =~= Seq::<char>::empty());
        assert(v == d0);
        assert(octet_text(n) =~= p);
    } else if p.len() == 2 {
        assert(is_digit(p[1]));
        lemma_digit_value(p[1]);
        let d1 = digit_value(p[1]);
        assert(d0 != 0) by {
            if d0 == 0 {
                lemma_digit_char(0);
                assert(p[0] == digit_char(0));
            }
        }
        assert(p.drop_last() =~= seq![p[0]]);
        assert(p.drop_last().drop_last() =~= Seq::<char>::empty());
        assert(decimal_value(p.drop_last()) == d0);
        assert(v == d0 * 10 + d1);
        assert(v / 10 == d0 && v % 10 == d1) by (nonlinear_arith)
            requires
                v == d0 * 10 + d1,
                1 <= d0 < 10,
                0 <= d1 < 10,
        ;
        assert(octet_text(n) =~= p);
    } else {
        assert(is_digit(p[1]));
        assert(is_digit(p[2]));
        lemma_digit_value(p[1]);
        lemma_digit_value(p[2]);
        let d1 = digit_value(p[1]);
        let d2 = digit_value(p[2]);
        assert(d0 != 0) by {
            if d0 == 0 {
                lemma_digit_char(0);
                assert(p[0] == digit_char(0));
            }
        }
        assert(p.drop_last() =~= seq![p[0], p[1]]);
        assert(p.drop_last().drop_last() =~= seq![p[0]]);
        assert(p.drop_last().drop_last().drop_last() =~= Seq::<char>::empty());
        assert(decimal_value(p.drop_last().drop_last()) == d0);
        assert(decimal_value(p.drop_last()) == d0 * 10 + d1);
        assert(v == (d0 * 10 + d1) * 10 + d2);
        assert(v / 100 == d0 && (v / 10) % 10 == d1 && v % 10 == d2 && v >= 100) by (nonlinear_arith)
            requires
                v == (d0 * 10 + d1) * 10 + d2,
                1 <= d0 < 10,
                0 <= d1 < 10,
                0 <= d2 < 10,
        ;
        assert(octet_text(n) =~= p);
    }
}

/// Formatting then parsing gives the address back: the text that `to_string`
/// writes is read by `parse_ipv4` as the same address.
pub proof fn law_ipv4_text_round_trip(ip: Ipv4Addr)
    ensures
        spec_parse_ipv4(ipv4_text(ip)) == Some(ip),
{
    let (a, b, c, d) = (octet_text(ip.first), octet_text(ip.second), octet_text(ip.third), octet_text(ip.fourth));
    lemma_octet_text_parses(ip.first);
    lemma_octet_text_parses(ip.second);
    lemma_octet_text_parses(ip.third);
    lemma_octet_text_parses(ip.fourth);
    lemma_split_on_no_sep(a, '.');
    lemma_split_on_no_sep(b, '.');
    lemma_split_on_no_sep(c, '.');
    lemma_split_on_no_sep(d, '.');
    lemma_split_on_concat(a + seq!['.'] + b + seq!['.'] + c, d, '.');
    lemma_split_on_concat(a + seq!['.'] + b, c, '.');
    lemma_split_on_concat(a, b, '.');
    assert(split_on(ipv4_text(ip), '.') =~= seq![a, b, c, d]);
}

/// Dotted-decimal text is canonical: whatever text parses to an address is
/// exactly the text that address formats to (no leading zeros, no other
/// spellings).
pub proof fn law_ipv4_parse_canonical(s: Seq<char>)
    requires
        spec_parse_ipv4(s) is Some,
    ensures
        ipv4_text(spec_parse_ipv4(s)->0) == s,
{
    let parts = split_on(s, '.');
    lemma_join_split(s, '.');
    lemma_octet_canonical(parts[0]);
    lemma_octet_canonical(parts[1]);
    lemma_octet_canonical(parts[2]);
    lemma_octet_canonical(parts[3]);
    assert(parts.drop_last().drop_last().drop_last() =~= seq![parts[0]]);
    assert(parts.drop_last().drop_last() =~= seq![parts[0], parts[1]]);
    assert(parts.drop_last() =~= seq![parts[0], parts[1], parts[2]]);
    assert(join_with(seq![parts[0]], '.') == parts[0]);
    assert(join_with(seq![parts[0], parts[1]], '.') == parts[0] + seq!['.'] + parts[1]);
    assert(join_with(seq![parts[0], parts[1], parts[2]], '.') == parts[0] + seq!['.'] + parts[1]
        + seq!['.'] + parts[2]);
    assert(join_with(parts, '.') == parts[0] + seq!['.'] + parts[1] + seq!['.'] + parts[2] + seq!['.']
        + parts[3]);
}

/// Packs four octets into a big-endian `u32`.
pub fn ipv4_as_u32(a: u8, b: u8, c: u8, d: u8) -> (v: u32)
    ensures
        v as int == octets_value(a, b, c, d),
{
    let v = ((a as u32) << 24) | ((b as u32) << 16) | ((c as u32) << 8) | d as u32;
    assert(v == a * 16777216 + b * 65536 + c * 256 + d) by (bit_vector)
        requires
            v == ((a as u32) << 24) | ((b as u32) << 16) | ((c as u32) << 8) | d as u32,
    ;
    v
}

fn push_digit(s: &mut String, d: u8)
    requires
        d < 10,
    ensures
        final(s)@ == old(s)@.push(digit_char(d as int)),
{
    let digits = "0123456789";
    proof {
        reveal_strlit("0123456789");
    }
    let one = digits.substring_char(d as usize, d as usize + 1);
    s.append(one);
    proof {
        assert(one@ =~= seq![digit_char(d as int)]);
    }
}

fn push_octet(s: &mut String, n: u8)
    ensures
        final(s)@ == old(s)@ + octet_text(n),
{
    if n < 10 {
        push_digit(s, n);
    } else if n < 100 {
        push_digit(s, n / 10);
        push_digit(s, n % 10);
    } else {
        push_digit(s, n / 100);
        push_digit(s, (n / 10) % 10);
        push_digit(s, n % 10);
    }
}

fn parse_octet(s: &Vec<char>) -> (r: Option<u8>)
    ensures
        r == spec_parse_octet(s@),
{
    let n = s.len();
    if n < 1 || n > 3 {
        return None;
    }
    if n > 1 && s[0] == '0' {
        return None;
    }
    let mut value: u32 = 0;
    let mut i: usize = 0;
    while i < n
        invariant
            n == s.len(),
            1 <= n <= 3,
            i <= n,
            all_digits(s@.take(i as int)),
            value == decimal_value(s@.take(i as int)),
            value < 1000,
            i == 0 ==> value == 0,
            i == 1 ==> value < 10,
            i == 2 ==> value < 100,
        decreases n - i,
    {
        assert(s@.take(i + 1).drop_last() =~= s@.take(i as int));
        let c = s[i];
        if !('0' <= c && c <= '9') {
            proof {
                assert(!is_digit(s@[i as int]));
            }
            return None;
        }
        value = value * 10 + (c as u32 - '0' as u32);
        i = i + 1;
        proof {
            assert forall|k: int| 0 <= k < i implies #[trigger] is_digit(s@.take(i as int)[k]) by {
                if k < i - 1 {
                    assert(s@.take(i as int)[k] == s@.take(i - 1)[k]);
                }
            }
        }
    }
    assert(s@.take(n as int) =~= s@);
    if value > 255 {
        None
    } else {
        Some(value as u8)
    }
}

/// Parses dotted-decimal text (as `str::parse::<Ipv4Addr>` does).
pub fn parse_ipv4(s: &str) -> (r: Option<Ipv4Addr>)
    ensures
        r == spec_parse_ipv4(s@),
{
    let cs = chars_of(s);
    let parts = split_chars(&cs, '.');
    if parts.len() != 4 {
        return None;
    }
    let a = parse_octet(&parts[0]);
    let b = parse_octet(&parts[1]);
    let c = parse_octet(&parts[2]);
    let d = parse_octet(&parts[3]);
    match (a, b, c, d) {
        (Some(a), Some(b), Some(c), Some(d)) => Some(Ipv4Addr::new(a, b, c, d)),
        _ => None,
    }
}

} // verus!
