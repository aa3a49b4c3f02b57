//! Printing of IP addresses, on bytes, plus the one conversion of
//! ASCII bytes into a `String`.
//!
//! A version-4 address prints as four decimal octets separated by dots.
//! A version-6 address prints its groups in lowercase hexadecimal
//! separated by colons, with the leftmost longest run of at least two
//! zero groups shortened to `::`; an address whose first five groups
//! are zero and whose sixth is ffff prints as `::ffff:` followed by its
//! last four octets in version-4 form.

use vstd::prelude::*;

use crate::ip::{ascii_seq, chars_of, IpAddress, v6_groups};

verus! {

/// Decimal text of `n`, most significant digit first, no leading zeros.
pub open spec fn dec_bytes(n: int) -> Seq<u8>
    decreases n,
    when n >= 0
{
    if n < 10 {
        seq![(48 + n) as u8]
    } else {
        dec_bytes(n / 10) + seq![(48 + n % 10) as u8]
    }
}

/// The lowercase hexadecimal digit for `d`.
pub open spec fn hex_digit_byte(d: int) -> u8 {
    if d < 10 {
        (48 + d) as u8
    } else {
        (87 + d) as u8
    }
}

/// Lowercase hexadecimal text of `n`, no leading zeros.
pub open spec fn hex_bytes(n: int) -> Seq<u8>
    decreases n,
    when n >= 0
{
    if n < 16 {
        seq![hex_digit_byte(n)]
    } else {
        hex_bytes(n / 16) + seq![hex_digit_byte(n % 16)]
    }
}

/// Dotted-quad text of four octets.
pub open spec fn v4_text(a: u8, b: u8, c: u8, d: u8) -> Seq<u8> {
    dec_bytes(a as int) + seq![46u8] + dec_bytes(b as int) + seq![46u8] + dec_bytes(c as int)
        + seq![46u8] + dec_bytes(d as int)
}

/// Colon-separated hexadecimal text of the groups of `gs`.
pub open spec fn groups_text(gs: Seq<u16>) -> Seq<u8>
    decreases gs.len(),
{
    if gs.len() == 0 {
        Seq::<u8>::empty()
    } else if gs.len() == 1 {
        hex_bytes(gs[0] as int)
    } else {
        hex_bytes(gs[0] as int) + seq![58u8] + groups_text(gs.drop_first())
    }
}

/// The scan for the leftmost longest run of zero groups among the
/// first `k` entries: longest start, longest length, current start,
/// current length.  A later run replaces the recorded one only when it
/// is strictly longer.
pub open spec fn zero_runs(gs: Seq<u16>, k: int) -> (int, int, int, int)
    decreases k,
    when k >= 0
{
    if k <= 0 {
        (0, 0, 0, 0)
    } else {
        let p = zero_runs(gs, k - 1);
        if gs[k - 1] == 0 {
            let ncs = if p.3 == 0 {
                k - 1
            } else {
                p.2
            };
            let ncl = p.3 + 1;
            if ncl > p.1 {
                (ncs, ncl, ncs, ncl)
            } else {
                (p.0, p.1, ncs, ncl)
            }
        } else {
            (p.0, p.1, 0, 0)
        }
    }
}

/// The leftmost longest run of zero groups: start and length.
pub open spec fn best_zero_run(gs: Seq<u16>) -> (int, int) {
    let r = zero_runs(gs, gs.len() as int);
    (r.0, r.1)
}

pub proof fn lemma_zero_runs_bounds(gs: Seq<u16>, k: int)
    requires
        0 <= k <= gs.len(),
    ensures
        0 <= zero_runs(gs, k).0,
        0 <= zero_runs(gs, k).1,
        zero_runs(gs, k).0 + zero_runs(gs, k).1 <= k,
        0 <= zero_runs(gs, k).2,
        0 <= zero_runs(gs, k).3,
        zero_runs(gs, k).2 + zero_runs(gs, k).3 <= k,
        zero_runs(gs, k).3 <= zero_runs(gs, k).1,
    decreases k,
{
    if k > 0 {
        lemma_zero_runs_bounds(gs, k - 1);
    }
}

/// Whether the groups are those of an address with a version-4-mapped
/// tail: five zero groups, then ffff, then the four mapped octets.
pub open spec fn is_v4_mapped(gs: Seq<u16>) -> bool {
    gs.len() == 8 && gs[0] == 0 && gs[1] == 0 && gs[2] == 0 && gs[3] == 0 && gs[4] == 0 && gs[5]
        == 0xffff
}

/// Text of a version-6 address with the given eight groups.
pub open spec fn v6_text(gs: Seq<u16>) -> Seq<u8>
    recommends
        gs.len() == 8,
{
    if is_v4_mapped(gs) {
        seq![58u8, 58u8, 102u8, 102u8, 102u8, 102u8, 58u8] + v4_text((gs[6] / 256) as u8, (gs[6]
            % 256) as u8, (gs[7] / 256) as u8, (gs[7] % 256) as u8)
    } else {
        let r = best_zero_run(gs);
        if r.1 > 1 {
            groups_text(gs.subrange(0, r.0)) + seq![58u8, 58u8] + groups_text(gs.subrange(r.0 + r.1,
                gs.len() as int))
        } else {
            groups_text(gs)
        }
    }
}

/// Text of an address, of either version.
pub open spec fn ip_text(ip: IpAddress) -> Seq<u8> {
    match ip {
        IpAddress::V4(a, b, c, d) => v4_text(a, b, c, d),
        IpAddress::V6(g0, g1, g2, g3, g4, g5, g6, g7) => v6_text(v6_groups(ip)),
    }
}

fn push_dec(v: &mut Vec<u8>, n: u8)
    requires
        ascii_seq(old(v)@),
    ensures
        final(v)@ == old(v)@ + dec_bytes(n as int),
        ascii_seq(final(v)@),
    decreases n,
{
    if n >= 10 {
        push_dec(v, n / 10);
    }
    v.push(48 + n % 10);
    proof {
        assert(v@ =~= old(v)@ + dec_bytes(n as int));
    }
}

fn push_hex(v: &mut Vec<u8>, n: u16)
    requires
        ascii_seq(old(v)@),
    ensures
        final(v)@ == old(v)@ + hex_bytes(n as int),
        ascii_seq(final(v)@),
    decreases n,
{
    if n >= 16 {
        push_hex(v, n / 16);
    }
    let d = (n % 16) as u8;
    if d < 10 {
        v.push(48 + d);
    } else {
        v.push(87 + d);
    }
    proof {
        assert(v@ =~= old(v)@ + hex_bytes(n as int));
    }
}

fn push_v4(v: &mut Vec<u8>, a: u8, b: u8, c: u8, d: u8)
    requires
        ascii_seq(old(v)@),
    ensures
        final(v)@ == old(v)@ + v4_text(a, b, c, d),
        ascii_seq(final(v)@),
{
    push_dec(v, a);
    v.push(46);
    push_dec(v, b);
    v.push(46);
    push_dec(v, c);
    v.push(46);
    push_dec(v, d);
    proof {
        assert(v@ =~= old(v)@ + v4_text(a, b, c, d));
    }
}

fn push_groups(v: &mut Vec<u8>, gs: &Vec<u16>, from: usize, to: usize)
    requires
        from <= to <= gs@.len(),
        ascii_seq(old(v)@),
    ensures
        final(v)@ == old(v)@ + groups_text(gs@.subrange(from as int, to as int)),
        ascii_seq(final(v)@),
    decreases to - from,
{
    if from >= to {
        proof {
            assert(gs@.subrange(from as int, to as int) =~= Seq::<u16>::empty());
            assert(v@ =~= old(v)@ + groups_text(gs@.subrange(from as int, to as int)));
        }
        return ;
    }
    push_hex(v, gs[from]);
    if from + 1 < to {
        v.push(58);
        push_groups(v, gs, from + 1, to);
        proof {
            let sub = gs@.subrange(from as int, to as int);
            assert(sub.drop_first() =~= gs@.subrange(from as int + 1, to as int));
            assert(sub[0] == gs@[from as int]);
            assert(v@ =~= old(v)@ + groups_text(sub));
        }
    } else {
        proof {
            let sub = gs@.subrange(from as int, to as int);
            assert(sub.len() == 1 && sub[0] == gs@[from as int]);
            assert(v@ =~= old(v)@ + groups_text(sub));
        }
    }
}

fn format_v6(gs: &Vec<u16>) -> (r: Vec<u8>)
    requires
        gs@.len() == 8,
    ensures
        r@ == v6_text(gs@),
        ascii_seq(r@),
{
    let mut v: Vec<u8> = Vec::new();
    if gs[0] == 0 && gs[1] == 0 && gs[2] == 0 && gs[3] == 0 && gs[4] == 0 && gs[5] == 0xffff {
        v.push(58);
        v.push(58);
        v.push(102);
        v.push(102);
        v.push(102);
        v.push(102);
        v.push(58);
        proof {
            assert(v@ =~= seq![58u8, 58u8, 102u8, 102u8, 102u8, 102u8, 58u8]);
        }
        let g6 = gs[6];
        let g7 = gs[7];
        push_v4(&mut v, (g6 / 256) as u8, (g6 % 256) as u8, (g7 / 256) as u8, (g7 % 256) as u8);
        proof {
            assert(v@ =~= v6_text(gs@));
        }
        return v;
    }
    proof {
        lemma_zero_runs_bounds(gs@, 8);
    }
    let mut ls: usize = 0;
    let mut ll: usize = 0;
    let mut cs: usize = 0;
    let mut cl: usize = 0;
    let mut k: usize = 0;
    while k < 8
        invariant
            gs@.len() == 8,
            k <= 8,
            ls as int == zero_runs(gs@, k as int).0,
            ll as int == zero_runs(gs@, k as int).1,
            cs as int == zero_runs(gs@, k as int).2,
            cl as int == zero_runs(gs@, k as int).3,
        decreases 8 - k,
    {
        proof {
            lemma_zero_runs_bounds(gs@, k as int);
        }
        if gs[k] == 0 {
            if cl == 0 {
                cs = k;
            }
            cl = cl + 1;
            if cl > ll {
                ls = cs;
                ll = cl;
            }
        } else {
            cs = 0;
            cl = 0;
        }
        k = k + 1;
    }
    proof {
        lemma_zero_runs_bounds(gs@, 8);
    }
    if ll > 1 {
        push_groups(&mut v, gs, 0, ls);
        v.push(58);
        v.push(58);
        push_groups(&mut v, gs, ls + ll, 8);
        proof {
            assert(v@ =~= v6_text(gs@));
        }
    } else {
        push_groups(&mut v, gs, 0, 8);
        proof {
            assert(gs@.subrange(0, 8) =~= gs@);
        }
    }
    v
}

/// Prints an address as its textual form, in bytes.
pub fn format_ip(ip: &IpAddress) -> (r: Vec<u8>)
    ensures
        r@ == ip_text(*ip),
        ascii_seq(r@),
{
    match *ip {
        IpAddress::V4(a, b, c, d) => {
            let mut v: Vec<u8> = Vec::new();
            push_v4(&mut v, a, b, c, d);
            proof {
                assert(v@ =~= ip_text(*ip));
            }
            v
        },
        IpAddress::V6(g0, g1, g2, g3, g4, g5, g6, g7) => {
            let mut gs: Vec<u16> = Vec::new();
            gs.push(g0);
            gs.push(g1);
            gs.push(g2);
            gs.push(g3);
            gs.push(g4);
            gs.push(g5);
            gs.push(g6);
            gs.push(g7);
            proof {
                assert(gs@ =~= v6_groups(*ip));
            }
            format_v6(&gs)
        },
    }
}

/// Relies on `String::from_utf8`: ASCII bytes are valid UTF-8 and
/// decode to exactly those characters, one per byte.
#[verifier::external_body]
fn ascii_string(v: Vec<u8>) -> (r: String)
    requires
        ascii_seq(v@),
    ensures
        r@ == chars_of(v@),
{
    String::from_utf8(v).unwrap_or_default()
}

/// The plain-text body for an address: its text followed by one
/// newline.
pub fn ip_line(ip: &IpAddress) -> (r: String)
    ensures
        r@ == chars_of(ip_text(*ip).push(10u8)),
{
    let mut v = format_ip(ip);
    v.push(10);
    ascii_string(v)
}

} // verus!
