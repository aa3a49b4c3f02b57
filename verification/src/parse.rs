//! Parsing of IP address text, on bytes.
//!
//! The grammar is the usual textual one: a version-4 address is four
//! decimal octets separated by dots, each at most three digits, with no
//! leading zero and value at most 255.  A version-6 address is up to
//! eight groups of at most four hexadecimal digits separated by colons,
//! with one optional `::` standing for a run of zero groups, and an
//! optional embedded version-4 tail taking the place of the last two
//! groups.  The spec functions below define the grammar; the executable
//! parser is proved to return exactly what they say.

use vstd::prelude::*;

use crate::ip::{is_digit, is_hex_digit, hex_digit_val, IpAddress};

verus! {

/// First position at or after `i` that does not hold a decimal digit.
pub open spec fn digits_end(s: Seq<u8>, i: int) -> int
    recommends
        0 <= i <= s.len(),
    decreases s.len() - i,
    when 0 <= i <= s.len()
{
    if i < s.len() && is_digit(s[i]) {
        digits_end(s, i + 1)
    } else {
        i
    }
}

pub proof fn lemma_digits_end(s: Seq<u8>, i: int)
    requires
        0 <= i <= s.len(),
    ensures
        i <= digits_end(s, i) <= s.len(),
        forall|k: int| i <= k < digits_end(s, i) ==> is_digit(s[k]),
        digits_end(s, i) < s.len() ==> !is_digit(s[digits_end(s, i)]),
    decreases s.len() - i,
{
    if i < s.len() && is_digit(s[i]) {
        lemma_digits_end(s, i + 1);
    }
}

/// First position at or after `i` that does not hold a hexadecimal digit.
pub open spec fn hex_end(s: Seq<u8>, i: int) -> int
    recommends
        0 <= i <= s.len(),
    decreases s.len() - i,
    when 0 <= i <= s.len()
{
    if i < s.len() && is_hex_digit(s[i]) {
        hex_end(s, i + 1)
    } else {
        i
    }
}

pub proof fn lemma_hex_end(s: Seq<u8>, i: int)
    requires
        0 <= i <= s.len(),
    ensures
        i <= hex_end(s, i) <= s.len(),
        forall|k: int| i <= k < hex_end(s, i) ==> is_hex_digit(s[k]),
        hex_end(s, i) < s.len() ==> !is_hex_digit(s[hex_end(s, i)]),
    decreases s.len() - i,
{
    if i < s.len() && is_hex_digit(s[i]) {
        lemma_hex_end(s, i + 1);
    }
}

/// Value of the decimal digits `s[i .. j)`.
pub open spec fn dec_val(s: Seq<u8>, i: int, j: int) -> int
    decreases j - i,
    when i <= j
{
    if i >= j {
        0
    } else {
        dec_val(s, i, j - 1) * 10 + (s[j - 1] - 48)
    }
}

/// Value of the hexadecimal digits `s[i .. j)`.
pub open spec fn hex_val(s: Seq<u8>, i: int, j: int) -> int
    decreases j - i,
    when i <= j
{
    if i >= j {
        0
    } else {
        hex_val(s, i, j - 1) * 16 + hex_digit_val(s[j - 1])
    }
}

pub open spec fn pow10(n: int) -> int
    decreases n,
    when n >= 0
{
    if n <= 0 {
        1
    } else {
        10 * pow10(n - 1)
    }
}

pub open spec fn pow16(n: int) -> int
    decreases n,
    when n >= 0
{
    if n <= 0 {
        1
    } else {
        16 * pow16(n - 1)
    }
}

pub proof fn lemma_dec_val_bound(s: Seq<u8>, i: int, j: int)
    requires
        0 <= i <= j <= s.len(),
        forall|k: int| i <= k < j ==> is_digit(s[k]),
    ensures
        0 <= dec_val(s, i, j) < pow10(j - i),
    decreases j - i,
{
    if i < j {
        lemma_dec_val_bound(s, i, j - 1);
        assert(pow10(j - i) == 10 * pow10(j - 1 - i));
    }
}

pub proof fn lemma_hex_val_bound(s: Seq<u8>, i: int, j: int)
    requires
        0 <= i <= j <= s.len(),
        forall|k: int| i <= k < j ==> is_hex_digit(s[k]),
    ensures
        0 <= hex_val(s, i, j) < pow16(j - i),
    decreases j - i,
{
    if i < j {
        lemma_hex_val_bound(s, i, j - 1);
        assert(pow16(j - i) == 16 * pow16(j - 1 - i));
    }
}

/// One decimal octet read at `i`: its value and the position after it.
/// The digits are taken greedily; more than three of them, a leading
/// zero before further digits, or a value above 255 is a failure.
pub open spec fn parse_octet(s: Seq<u8>, i: int) -> Option<(u8, int)>
    recommends
        0 <= i <= s.len(),
{
    let j = digits_end(s, i);
    if j == i {
        None
    } else if j - i > 3 {
        None
    } else if s[i] == 48 && j - i > 1 {
        None
    } else if dec_val(s, i, j) > 255 {
        None
    } else {
        Some((dec_val(s, i, j) as u8, j))
    }
}

/// One hexadecimal group read at `i`: its value and the position after
/// it.  At most four digits; leading zeros are allowed.
pub open spec fn parse_group(s: Seq<u8>, i: int) -> Option<(u16, int)>
    recommends
        0 <= i <= s.len(),
{
    let j = hex_end(s, i);
    if j == i {
        None
    } else if j - i > 4 {
        None
    } else {
        Some((hex_val(s, i, j) as u16, j))
    }
}

/// A version-4 address read at `i`: four octets separated by dots.
pub open spec fn parse_v4_at(s: Seq<u8>, i: int) -> Option<((u8, u8, u8, u8), int)>
    recommends
        0 <= i <= s.len(),
{
    match parse_octet(s, i) {
        None => None,
        Some((a, p1)) => if p1 < s.len() && s[p1] == 46 {
            match parse_octet(s, p1 + 1) {
                None => None,
                Some((b, p2)) => if p2 < s.len() && s[p2] == 46 {
                    match parse_octet(s, p2 + 1) {
                        None => None,
                        Some((c, p3)) => if p3 < s.len() && s[p3] == 46 {
                            match parse_octet(s, p3 + 1) {
                                None => None,
                                Some((d, p4)) => Some(((a, b, c, d), p4)),
                            }
                        } else {
                            None
                        },
                    }
                } else {
                    None
                },
            }
        } else {
            None
        },
    }
}

pub proof fn lemma_parse_octet_bounds(s: Seq<u8>, i: int)
    requires
        0 <= i <= s.len(),
    ensures
        parse_octet(s, i) matches Some(r) ==> i < r.1 <= s.len(),
{
    lemma_digits_end(s, i);
}

pub proof fn lemma_parse_group_bounds(s: Seq<u8>, i: int)
    requires
        0 <= i <= s.len(),
    ensures
        parse_group(s, i) matches Some(r) ==> i < r.1 <= s.len(),
{
    lemma_hex_end(s, i);
}

pub proof fn lemma_parse_v4_at_bounds(s: Seq<u8>, i: int)
    requires
        0 <= i <= s.len(),
    ensures
        parse_v4_at(s, i) matches Some(r) ==> i < r.1 <= s.len(),
{
    lemma_parse_octet_bounds(s, i);
    match parse_octet(s, i) {
        None => {},
        Some((a, p1)) => {
            if p1 < s.len() && s[p1] == 46 {
                lemma_parse_octet_bounds(s, p1 + 1);
                match parse_octet(s, p1 + 1) {
                    None => {},
                    Some((b, p2)) => {
                        if p2 < s.len() && s[p2] == 46 {
                            lemma_parse_octet_bounds(s, p2 + 1);
                            match parse_octet(s, p2 + 1) {
                                None => {},
                                Some((c, p3)) => {
                                    if p3 < s.len() && s[p3] == 46 {
                                        lemma_parse_octet_bounds(s, p3 + 1);
                                    }
                                },
                            }
                        }
                    },
                }
            }
        },
    }
}

/// A version-4 address read at `i`, preceded by a colon when `sep` says
/// a separator is due.
pub open spec fn parse_v4_sep(s: Seq<u8>, i: int, sep: bool) -> Option<((u8, u8, u8, u8), int)>
    recommends
        0 <= i <= s.len(),
{
    if sep {
        if i < s.len() && s[i] == 58 {
            parse_v4_at(s, i + 1)
        } else {
            None
        }
    } else {
        parse_v4_at(s, i)
    }
}

/// A hexadecimal group read at `i`, preceded by a colon when `sep` says
/// a separator is due.
pub open spec fn parse_group_sep(s: Seq<u8>, i: int, sep: bool) -> Option<(u16, int)>
    recommends
        0 <= i <= s.len(),
{
    if sep {
        if i < s.len() && s[i] == 58 {
            parse_group(s, i + 1)
        } else {
            None
        }
    } else {
        parse_group(s, i)
    }
}

/// Two groups made from an embedded version-4 tail.
pub open spec fn v4_tail_groups(a: u8, b: u8, c: u8, d: u8) -> Seq<u16> {
    seq![(a * 256 + b) as u16, (c * 256 + d) as u16]
}

/// Reads colon-separated groups from `i`, group index `k` of at most
/// `limit`, stopping at the first position where no further group can
/// be read.  Returns the groups, the position after them, and whether
/// they ended in an embedded version-4 tail.  A tail is attempted only
/// while at least two group slots are free, and ends the reading.
pub open spec fn parse_groups(s: Seq<u8>, i: int, k: int, limit: int) -> (Seq<u16>, int, bool)
    recommends
        0 <= i <= s.len(),
        0 <= k,
    decreases limit - k,
    when k <= limit
{
    if k >= limit {
        (Seq::<u16>::empty(), i, false)
    } else {
        let v4 = if k + 2 <= limit {
            parse_v4_sep(s, i, k > 0)
        } else {
            None
        };
        match v4 {
            Some(((a, b, c, d), j)) => (v4_tail_groups(a, b, c, d), j, true),
            None => match parse_group_sep(s, i, k > 0) {
                None => (Seq::<u16>::empty(), i, false),
                Some((g, j)) => {
                    let r = parse_groups(s, j, k + 1, limit);
                    (seq![g] + r.0, r.1, r.2)
                },
            },
        }
    }
}

pub proof fn lemma_parse_groups_bounds(s: Seq<u8>, i: int, k: int, limit: int)
    requires
        0 <= i <= s.len(),
        0 <= k <= limit,
    ensures
        i <= parse_groups(s, i, k, limit).1 <= s.len(),
        parse_groups(s, i, k, limit).0.len() <= limit - k,
    decreases limit - k,
{
    if k < limit {
        let v4 = if k + 2 <= limit {
            parse_v4_sep(s, i, k > 0)
        } else {
            None
        };
        match v4 {
            Some(((a, b, c, d), j)) => {
                if k > 0 {
                    if i < s.len() && s[i] == 58 {
                        lemma_parse_v4_at_bounds(s, i + 1);
                    }
                } else {
                    lemma_parse_v4_at_bounds(s, i);
                }
            },
            None => {
                match parse_group_sep(s, i, k > 0) {
                    None => {},
                    Some((g, j)) => {
                        if k > 0 {
                            if i < s.len() && s[i] == 58 {
                                lemma_parse_group_bounds(s, i + 1);
                            }
                        } else {
                            lemma_parse_group_bounds(s, i);
                        }
                        lemma_parse_groups_bounds(s, j, k + 1, limit);
                    },
                }
            },
        }
    }
}

/// The address whose groups are the eight entries of `gs`.
pub open spec fn v6_of(gs: Seq<u16>) -> IpAddress
    recommends
        gs.len() == 8,
{
    IpAddress::V6(gs[0], gs[1], gs[2], gs[3], gs[4], gs[5], gs[6], gs[7])
}

/// A whole version-4 address: four octets and nothing after them.
pub open spec fn spec_parse_ipv4(s: Seq<u8>) -> Option<IpAddress> {
    match parse_v4_at(s, 0) {
        Some((t, j)) => if j == s.len() {
            Some(IpAddress::V4(t.0, t.1, t.2, t.3))
        } else {
            None
        },
        None => None,
    }
}

/// A whole version-6 address.  Either eight groups fill the address, or
/// fewer groups are followed by `::` and a tail whose groups land at
/// the end, with zero groups in between.  An embedded version-4 tail
/// may not stand before the `::`.
pub open spec fn spec_parse_ipv6(s: Seq<u8>) -> Option<IpAddress> {
    let head = parse_groups(s, 0, 0, 8);
    if head.0.len() == 8 {
        if head.1 == s.len() {
            Some(v6_of(head.0))
        } else {
            None
        }
    } else if head.2 {
        None
    } else if head.1 + 2 <= s.len() && s[head.1] == 58 && s[head.1 + 1] == 58 {
        let limit = 7 - head.0.len();
        let tail = parse_groups(s, head.1 + 2, 0, limit);
        if tail.1 == s.len() {
            Some(v6_of(head.0 + Seq::new((8 - head.0.len() - tail.0.len()) as nat, |x: int| 0u16) + tail.0))
        } else {
            None
        }
    } else {
        None
    }
}

/// A whole address of either version; version 4 is tried first.
pub open spec fn spec_parse_ip(s: Seq<u8>) -> Option<IpAddress> {
    if spec_parse_ipv4(s) is Some {
        spec_parse_ipv4(s)
    } else {
        spec_parse_ipv6(s)
    }
}

/// Abstraction of an executable octet result.
pub open spec fn oct_abs(r: Option<(u8, usize)>) -> Option<(u8, int)> {
    match r {
        None => None,
        Some((v, j)) => Some((v, j as int)),
    }
}

/// Abstraction of an executable group result.
pub open spec fn grp_abs(r: Option<(u16, usize)>) -> Option<(u16, int)> {
    match r {
        None => None,
        Some((v, j)) => Some((v, j as int)),
    }
}

/// Abstraction of an executable version-4 result.
pub open spec fn v4_abs(r: Option<(u8, u8, u8, u8, usize)>) -> Option<((u8, u8, u8, u8), int)> {
    match r {
        None => None,
        Some((a, b, c, d, j)) => Some(((a, b, c, d), j as int)),
    }
}

fn scan_digits(s: &[u8], i: usize) -> (j: usize)
    requires
        i <= s@.len(),
    ensures
        j == digits_end(s@, i as int),
        i <= j <= s@.len(),
{
    let mut j = i;
    while j < s.len() && 48 <= s[j] && s[j] <= 57
        invariant
            i <= j <= s@.len(),
            digits_end(s@, i as int) == digits_end(s@, j as int),
        decreases s@.len() - j,
    {
        j = j + 1;
    }
    j
}

fn scan_hex(s: &[u8], i: usize) -> (j: usize)
    requires
        i <= s@.len(),
    ensures
        j == hex_end(s@, i as int),
        i <= j <= s@.len(),
{
    let mut j = i;
    while j < s.len() && (48 <= s[j] && s[j] <= 57 || 97 <= s[j] && s[j] <= 102 || 65 <= s[j]
        && s[j] <= 70)
        invariant
            i <= j <= s@.len(),
            hex_end(s@, i as int) == hex_end(s@, j as int),
        decreases s@.len() - j,
    {
        j = j + 1;
    }
    j
}

fn parse_octet_x(s: &[u8], i: usize) -> (r: Option<(u8, usize)>)
    requires
        i <= s@.len(),
    ensures
        oct_abs(r) == parse_octet(s@, i as int),
        r matches Some(p) ==> i < p.1 <= s@.len(),
{
    proof {
        lemma_digits_end(s@, i as int);
    }
    let j = scan_digits(s, i);
    if j == i {
        return None;
    }
    if j - i > 3 {
        return None;
    }
    if s[i] == 48 && j - i > 1 {
        return None;
    }
    proof {
        lemma_dec_val_bound(s@, i as int, j as int);
    }
    let mut v: u32 = 0;
    let mut k = i;
    while k < j
        invariant
            i <= k <= j <= s@.len(),
            j - i <= 3,
            forall|t: int| i <= t < j ==> is_digit(s@[t]),
            v == dec_val(s@, i as int, k as int),
            v < 1000,
        decreases j - k,
    {
        proof {
            lemma_dec_val_bound(s@, i as int, (k + 1) as int);
            assert(pow10((k + 1 - i) as int) <= pow10(3)) by {
                reveal_with_fuel(pow10, 5);
            }
            assert(pow10(3) == 1000) by {
                reveal_with_fuel(pow10, 5);
            }
        }
        v = v * 10 + (s[k] - 48) as u32;
        k = k + 1;
    }
    if v > 255 {
        None
    } else {
        Some((v as u8, j))
    }
}

fn parse_group_x(s: &[u8], i: usize) -> (r: Option<(u16, usize)>)
    requires
        i <= s@.len(),
    ensures
        grp_abs(r) == parse_group(s@, i as int),
        r matches Some(p) ==> i < p.1 <= s@.len(),
{
    proof {
        lemma_hex_end(s@, i as int);
    }
    let j = scan_hex(s, i);
    if j == i {
        return None;
    }
    if j - i > 4 {
        return None;
    }
    proof {
        lemma_hex_val_bound(s@, i as int, j as int);
    }
    let mut v: u32 = 0;
    let mut k = i;
    while k < j
        invariant
            i <= k <= j <= s@.len(),
            j - i <= 4,
            forall|t: int| i <= t < j ==> is_hex_digit(s@[t]),
            v == hex_val(s@, i as int, k as int),
            v < 65536,
        decreases j - k,
    {
        proof {
            lemma_hex_val_bound(s@, i as int, (k + 1) as int);
            assert(pow16((k + 1 - i) as int) <= pow16(4)) by {
                reveal_with_fuel(pow16, 6);
            }
            assert(pow16(4) == 65536) by {
                reveal_with_fuel(pow16, 6);
            }
        }
        let b = s[k];
        let d: u32 = if 48 <= b && b <= 57 {
            (b - 48) as u32
        } else if 97 <= b && b <= 102 {
            (b - 87) as u32
        } else {
            (b - 55) as u32
        };
        v = v * 16 + d;
        k = k + 1;
    }
    Some((v as u16, j))
}

fn parse_v4_at_x(s: &[u8], i: usize) -> (r: Option<(u8, u8, u8, u8, usize)>)
    requires
        i <= s@.len(),
    ensures
        v4_abs(r) == parse_v4_at(s@, i as int),
        r matches Some(p) ==> i < p.4 <= s@.len(),
{
    let (a, p1) = match parse_octet_x(s, i) {
        None => {
            return None;
        },
        Some(t) => t,
    };
    if !(p1 < s.len() && s[p1] == 46) {
        return None;
    }
    let (b, p2) = match parse_octet_x(s, p1 + 1) {
        None => {
            return None;
        },
        Some(t) => t,
    };
    if !(p2 < s.len() && s[p2] == 46) {
        return None;
    }
    let (c, p3) = match parse_octet_x(s, p2 + 1) {
        None => {
            return None;
        },
        Some(t) => t,
    };
    if !(p3 < s.len() && s[p3] == 46) {
        return None;
    }
    let (d, p4) = match parse_octet_x(s, p3 + 1) {
        None => {
            return None;
        },
        Some(t) => t,
    };
    Some((a, b, c, d, p4))
}

fn parse_v4_sep_x(s: &[u8], i: usize, sep: bool) -> (r: Option<(u8, u8, u8, u8, usize)>)
    requires
        i <= s@.len(),
    ensures
        v4_abs(r) == parse_v4_sep(s@, i as int, sep),
        r matches Some(p) ==> i < p.4 <= s@.len(),
{
    if sep {
        if i < s.len() && s[i] == 58 {
            parse_v4_at_x(s, i + 1)
        } else {
            None
        }
    } else {
        parse_v4_at_x(s, i)
    }
}

fn parse_group_sep_x(s: &[u8], i: usize, sep: bool) -> (r: Option<(u16, usize)>)
    requires
        i <= s@.len(),
    ensures
        grp_abs(r) == parse_group_sep(s@, i as int, sep),
        r matches Some(p) ==> i < p.1 <= s@.len(),
{
    if sep {
        if i < s.len() && s[i] == 58 {
            parse_group_x(s, i + 1)
        } else {
            None
        }
    } else {
        parse_group_x(s, i)
    }
}

fn parse_groups_x(s: &[u8], i: usize, k: usize, limit: usize) -> (r: (Vec<u16>, usize, bool))
    requires
        i <= s@.len(),
        k <= limit,
        limit <= 8,
    ensures
        r.0@ == parse_groups(s@, i as int, k as int, limit as int).0,
        r.1 == parse_groups(s@, i as int, k as int, limit as int).1,
        r.2 == parse_groups(s@, i as int, k as int, limit as int).2,
        i <= r.1 <= s@.len(),
    decreases limit - k,
{
    if k >= limit {
        let v: Vec<u16> = Vec::new();
        assert(v@ == Seq::<u16>::empty());
        return (v, i, false);
    }
    if k + 2 <= limit {
        if let Some((a, b, c, d, j)) = parse_v4_sep_x(s, i, k > 0) {
            let g1: u16 = (a as u16) * 256 + (b as u16);
            let g2: u16 = (c as u16) * 256 + (d as u16);
            let mut v: Vec<u16> = Vec::new();
            v.push(g1);
            v.push(g2);
            assert(v@ == v4_tail_groups(a, b, c, d));
            return (v, j, true);
        }
    }
    match parse_group_sep_x(s, i, k > 0) {
        None => {
            let v: Vec<u16> = Vec::new();
            assert(v@ == Seq::<u16>::empty());
            (v, i, false)
        },
        Some((g, j)) => {
            let (mut rest, j2, f) = parse_groups_x(s, j, k + 1, limit);
            let mut v: Vec<u16> = Vec::new();
            v.push(g);
            v.append(&mut rest);
            assert(v@ == seq![g] + parse_groups(s@, j as int, (k + 1) as int, limit as int).0);
            (v, j2, f)
        },
    }
}

fn parse_v4_x(s: &[u8]) -> (r: Option<IpAddress>)
    ensures
        r == spec_parse_ipv4(s@),
{
    match parse_v4_at_x(s, 0) {
        None => None,
        Some((a, b, c, d, j)) => if j == s.len() {
            Some(IpAddress::V4(a, b, c, d))
        } else {
            None
        },
    }
}

fn parse_v6_x(s: &[u8]) -> (r: Option<IpAddress>)
    ensures
        r == spec_parse_ipv6(s@),
{
    proof {
        lemma_parse_groups_bounds(s@, 0, 0, 8);
    }
    let (head, i, head_v4) = parse_groups_x(s, 0, 0, 8);
    let hlen = head.len();
    if hlen == 8 {
        if i == s.len() {
            let ip = IpAddress::V6(head[0], head[1], head[2], head[3], head[4], head[5], head[6],
                head[7]);
            assert(ip == v6_of(head@));
            return Some(ip);
        } else {
            return None;
        }
    }
    if head_v4 {
        return None;
    }
    if s.len() - i >= 2 && s[i] == 58 && s[i + 1] == 58 {
        let limit = 7 - hlen;
        proof {
            lemma_parse_groups_bounds(s@, (i + 2) as int, 0, limit as int);
        }
        let (tail, j, _tail_v4) = parse_groups_x(s, i + 2, 0, limit);
        if j == s.len() {
            let ghost head_seq = head@;
            let ghost tail_seq = tail@;
            let tlen = tail.len();
            let mut all = head;
            let zeros = 8 - hlen - tlen;
            let mut z: usize = 0;
            while z < zeros
                invariant
                    z <= zeros,
                    zeros == 8 - head_seq.len() - tail_seq.len(),
                    all@ == head_seq + Seq::new(z as nat, |x: int| 0u16),
                decreases zeros - z,
            {
                all.push(0u16);
                proof {
                    assert(all@ =~= head_seq + Seq::new((z + 1) as nat, |x: int| 0u16));
                }
                z = z + 1;
            }
            let mut t = tail;
            all.append(&mut t);
            proof {
                assert(all@ =~= head_seq + Seq::new(zeros as nat, |x: int| 0u16) + tail_seq);
            }
            let ip = IpAddress::V6(all[0], all[1], all[2], all[3], all[4], all[5], all[6], all[7]);
            assert(ip == v6_of(all@));
            return Some(ip);
        } else {
            return None;
        }
    }
    None
}

/// Parses the bytes of an IP address in text form, of either version.
/// Returns exactly what the grammar admits, and nothing else.
pub fn parse_ip(s: &[u8]) -> (r: Option<IpAddress>)
    ensures
        r == spec_parse_ip(s@),
{
    match parse_v4_x(s) {
        Some(ip) => Some(ip),
        None => parse_v6_x(s),
    }
}

} // verus!
