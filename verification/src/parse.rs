//! Textual subnet parsing: one `address/prefix` field pair per line.
//!
//! The grammar is stated over byte sequences. An address field is either
//! a dotted quad — four decimal octets, each one to three digits, no
//! leading zeros, value at most 255, separated by exactly three dots —
//! or a 128-bit address in the colon form defined next door. A prefix
//! field is an optional `+` followed by decimal digits whose value fits
//! the address family: at most 32 after a dotted quad, at most 128 after
//! a colon form. The parser's contract is an exact match of this
//! grammar: it succeeds on precisely the well-formed lines, and each
//! failure names the field that broke.

use vstd::prelude::*;

use crate::ip::IpAddr;
use crate::parse6::{lemma_parse_ipv6_bound, parse_ipv6_bytes, spec_parse_ipv6};
use crate::subnet::{Error, Subnet};

verus! {

/// ASCII decimal digit.
pub open spec fn is_digit(b: u8) -> bool {
    48 <= b && b <= 57
}

/// The numeric value of an ASCII digit.
pub open spec fn digit_val(b: u8) -> nat {
    if is_digit(b) {
        (b - 48) as nat
    } else {
        0
    }
}

/// Every byte of the sequence is a decimal digit.
pub open spec fn all_digits(s: Seq<u8>) -> bool {
    forall|p: int| 0 <= p < s.len() ==> is_digit(s[p])
}

/// The value of a digit sequence read as a decimal number.
pub open spec fn dec_value(s: Seq<u8>) -> nat
    decreases s.len(),
{
    if s.len() == 0 {
        0
    } else {
        dec_value(s.drop_last()) * 10 + digit_val(s.last())
    }
}

/// A well-formed decimal octet: one to three digits, no leading zero,
/// value at most 255.
pub open spec fn octet_ok(s: Seq<u8>) -> bool {
    &&& 1 <= s.len() <= 3
    &&& all_digits(s)
    &&& dec_value(s) <= 255
    &&& (s.len() > 1 ==> s[0] != 48)
}

/// The three dots of a dotted quad stand at `i < j < k` and all four
/// fields between them are well-formed octets.
pub open spec fn ipv4_split_at(s: Seq<u8>, i: int, j: int, k: int) -> bool {
    &&& 0 <= i < j < k < s.len()
    &&& s[i] == 46u8
    &&& s[j] == 46u8
    &&& s[k] == 46u8
    &&& octet_ok(s.subrange(0, i))
    &&& octet_ok(s.subrange(i + 1, j))
    &&& octet_ok(s.subrange(j + 1, k))
    &&& octet_ok(s.subrange(k + 1, s.len() as int))
}

/// The sequence is a well-formed dotted quad.
pub open spec fn ipv4_ok(s: Seq<u8>) -> bool {
    exists|i: int, j: int, k: int| ipv4_split_at(s, i, j, k)
}

/// The 32-bit value of a dotted quad split at `i < j < k`.
pub open spec fn ipv4_value_at(s: Seq<u8>, i: int, j: int, k: int) -> u32 {
    (dec_value(s.subrange(0, i)) * 0x1000000 + dec_value(s.subrange(i + 1, j)) * 0x10000
        + dec_value(s.subrange(j + 1, k)) * 0x100 + dec_value(
        s.subrange(k + 1, s.len() as int),
    )) as u32
}

/// What parsing a dotted quad yields: the combined value on a well-formed
/// quad, nothing otherwise.
pub open spec fn spec_parse_ipv4(s: Seq<u8>) -> Option<u32> {
    if ipv4_ok(s) {
        let (i, j, k) = choose|i: int, j: int, k: int| ipv4_split_at(s, i, j, k);
        Some(ipv4_value_at(s, i, j, k))
    } else {
        None
    }
}

/// The digits of a prefix field, after an optional leading `+`.
pub open spec fn prefix_digits(s: Seq<u8>) -> Seq<u8> {
    if s.len() > 0 && s[0] == 43u8 {
        s.skip(1)
    } else {
        s
    }
}

/// A well-formed prefix field for a family whose widest prefix is `max`.
pub open spec fn prefix_ok(s: Seq<u8>, max: nat) -> bool {
    &&& prefix_digits(s).len() >= 1
    &&& all_digits(prefix_digits(s))
    &&& dec_value(prefix_digits(s)) <= max
}

/// What parsing a prefix field yields.
pub open spec fn spec_parse_prefix(s: Seq<u8>, max: nat) -> Option<u8> {
    if prefix_ok(s, max) && max <= 255 {
        Some(dec_value(prefix_digits(s)) as u8)
    } else {
        None
    }
}

/// Exactly one `/` stands in the line, at position `i`.
pub open spec fn slash_split_at(s: Seq<u8>, i: int) -> bool {
    &&& 0 <= i < s.len()
    &&& s[i] == 47u8
    &&& forall|p: int| 0 <= p < s.len() && p != i ==> s[p] != 47u8
}

/// What parsing a whole `address/prefix` line yields: the normalized
/// subnet on a well-formed line, and otherwise the error naming the first
/// field that broke — `Field` without exactly one `/`, `Address` on an
/// address field that is neither a dotted quad nor a colon form,
/// `Prefix` on a prefix field the address family does not admit.
pub open spec fn spec_parse_subnet(s: Seq<u8>) -> Result<Subnet, Error> {
    if !(exists|i: int| slash_split_at(s, i)) {
        Err(Error::Field)
    } else {
        let i = choose|i: int| slash_split_at(s, i);
        let addr = s.subrange(0, i);
        let pfx = s.subrange(i + 1, s.len() as int);
        if spec_parse_ipv4(addr) is Some {
            if spec_parse_prefix(pfx, 32) is None {
                Err(Error::Prefix)
            } else {
                Ok(
                    Subnet::spec_new(
                        IpAddr::V4(spec_parse_ipv4(addr)->Some_0),
                        spec_parse_prefix(pfx, 32)->Some_0,
                    ),
                )
            }
        } else if spec_parse_ipv6(addr) is Some {
            if spec_parse_prefix(pfx, 128) is None {
                Err(Error::Prefix)
            } else {
                Ok(
                    Subnet::spec_new(
                        IpAddr::V6(spec_parse_ipv6(addr)->Some_0 as u128),
                        spec_parse_prefix(pfx, 128)->Some_0,
                    ),
                )
            }
        } else {
            Err(Error::Address)
        }
    }
}

/// An octet field holds no dot and no slash: its bytes are digits.
proof fn lemma_octet_no_sep(s: Seq<u8>, a: int, b: int)
    requires
        0 <= a <= b <= s.len(),
        octet_ok(s.subrange(a, b)),
    ensures
        forall|p: int| a <= p < b ==> s[p] != 46u8 && s[p] != 47u8,
{
    assert forall|p: int| a <= p < b implies s[p] != 46u8 && s[p] != 47u8 by {
        assert(s.subrange(a, b)[p - a] == s[p]);
        assert(is_digit(s.subrange(a, b)[p - a]));
    }
}

/// A dotted-quad split is pinned by the first three dots: any split's dot
/// positions are exactly the first, second and third dot of the sequence.
proof fn lemma_dots_pin(s: Seq<u8>, i: int, j: int, k: int, d1: int, d2: int, d3: int)
    requires
        ipv4_split_at(s, i, j, k),
        0 <= d1 < s.len(),
        s[d1] == 46u8,
        forall|p: int| 0 <= p < d1 ==> s[p] != 46u8,
        d1 < d2 < s.len(),
        s[d2] == 46u8,
        forall|p: int| d1 < p < d2 ==> s[p] != 46u8,
        d2 < d3 < s.len(),
        s[d3] == 46u8,
        forall|p: int| d2 < p < d3 ==> s[p] != 46u8,
    ensures
        i == d1,
        j == d2,
        k == d3,
{
    lemma_octet_no_sep(s, 0, i);
    lemma_octet_no_sep(s, i + 1, j);
    lemma_octet_no_sep(s, j + 1, k);
    lemma_octet_no_sep(s, k + 1, s.len() as int);
    // The first dot: i has only digits before it, d1 likewise.
    assert(i == d1) by {
        if i < d1 {
            assert(s[i] != 46u8);
        } else if d1 < i {
            assert(s[d1] != 46u8);
        }
    }
    assert(j == d2) by {
        if j < d2 {
            assert(s[j] != 46u8);
        } else if d2 < j {
            assert(s[d2] != 46u8);
        }
    }
    assert(k == d3) by {
        if k < d3 {
            assert(s[k] != 46u8);
        } else if d3 < k {
            assert(s[d3] != 46u8);
        }
    }
}

/// Two dotted-quad splits of one sequence coincide.
proof fn lemma_split_unique(s: Seq<u8>, i: int, j: int, k: int, i2: int, j2: int, k2: int)
    requires
        ipv4_split_at(s, i, j, k),
        ipv4_split_at(s, i2, j2, k2),
    ensures
        i == i2,
        j == j2,
        k == k2,
{
    lemma_octet_no_sep(s, 0, i);
    lemma_octet_no_sep(s, i + 1, j);
    lemma_octet_no_sep(s, j + 1, k);
    lemma_octet_no_sep(s, k + 1, s.len() as int);
    lemma_dots_pin(s, i2, j2, k2, i, j, k);
}

/// Parses one decimal octet out of `s[from..to]`.
fn parse_octet(s: &Vec<u8>, from: usize, to: usize) -> (r: Option<u8>)
    requires
        from <= to <= s.len(),
    ensures
        r matches Some(v) ==> octet_ok(s@.subrange(from as int, to as int)) && v as nat
            == dec_value(s@.subrange(from as int, to as int)),
        r is None ==> !octet_ok(s@.subrange(from as int, to as int)),
{
    let ghost seg = s@.subrange(from as int, to as int);
    let len: usize = to - from;
    if len == 0 || len > 3 {
        return None;
    }
    if len > 1 && s[from] == 48 {
        return None;
    }
    let mut m: usize = 0;
    let mut acc: u32 = 0;
    while m < len
        invariant
            m <= len,
            len == to - from <= 3,
            from <= to <= s.len(),
            seg == s@.subrange(from as int, to as int),
            acc as nat == dec_value(seg.take(m as int)),
            forall|p: int| 0 <= p < m ==> is_digit(seg[p]),
            m == 0 ==> acc == 0,
            m == 1 ==> acc <= 9,
            m == 2 ==> acc <= 99,
            m == 3 ==> acc <= 999,
        decreases len - m,
    {
        let b = s[from + m];
        assert(seg[m as int] == b);
        if b < 48 || b > 57 {
            assert(!is_digit(seg[m as int]));
            return None;
        }
        acc = acc * 10 + ((b - 48) as u32);
        m = m + 1;
        proof {
            assert(seg.take(m as int).drop_last() =~= seg.take(m - 1));
            assert(seg.take(m as int).last() == seg[m - 1]);
        }
    }
    proof {
        assert(seg.take(len as int) =~= seg);
    }
    if acc > 255 {
        None
    } else {
        Some(acc as u8)
    }
}

/// Parses a whole byte sequence as a dotted quad.
pub fn parse_ipv4_bytes(s: &Vec<u8>) -> (r: Option<u32>)
    ensures
        r == spec_parse_ipv4(s@),
{
    let len: usize = s.len();
    let mut n: usize = 0;
    let mut found: usize = 0;
    let mut d1: usize = 0;
    let mut d2: usize = 0;
    let mut d3: usize = 0;
    while n < len
        invariant
            n <= len,
            len == s@.len(),
            found <= 4,
            found == 0 ==> forall|p: int| 0 <= p < n ==> s@[p] != 46u8,
            found >= 1 ==> d1 < n && s@[d1 as int] == 46u8 && (forall|p: int|
                0 <= p < d1 ==> s@[p] != 46u8),
            found == 1 ==> forall|p: int| d1 < p < n ==> s@[p] != 46u8,
            found >= 2 ==> d1 < d2 < n && s@[d2 as int] == 46u8 && (forall|p: int|
                d1 < p < d2 ==> s@[p] != 46u8),
            found == 2 ==> forall|p: int| d2 < p < n ==> s@[p] != 46u8,
            found >= 3 ==> d2 < d3 < n && s@[d3 as int] == 46u8 && (forall|p: int|
                d2 < p < d3 ==> s@[p] != 46u8),
            found == 3 ==> forall|p: int| d3 < p < n ==> s@[p] != 46u8,
            found == 4 ==> exists|p: int| d3 < p < n && s@[p] == 46u8,
        decreases len - n,
    {
        if s[n] == 46 {
            if found == 0 {
                d1 = n;
                found = 1;
            } else if found == 1 {
                d2 = n;
                found = 2;
            } else if found == 2 {
                d3 = n;
                found = 3;
            } else if found == 3 {
                found = 4;
            }
        }
        n = n + 1;
    }
    if found != 3 {
        proof {
            if ipv4_ok(s@) {
                let (i, j, k) = choose|i: int, j: int, k: int| ipv4_split_at(s@, i, j, k);
                if found == 0 {
                    assert(s@[i] != 46u8);
                } else if found == 1 {
                    assert(i == d1 && j == d1) by {
                        if i != d1 {
                            assert(s@[i] != 46u8);
                        }
                        if j != d1 {
                            assert(s@[j] != 46u8);
                        }
                    }
                } else if found == 2 {
                    assert(i == d1 || i == d2) by {
                        if i != d1 && i != d2 {
                            assert(s@[i] != 46u8);
                        }
                    }
                    assert(j == d1 || j == d2) by {
                        if j != d1 && j != d2 {
                            assert(s@[j] != 46u8);
                        }
                    }
                    assert(k == d1 || k == d2) by {
                        if k != d1 && k != d2 {
                            assert(s@[k] != 46u8);
                        }
                    }
                } else {
                    lemma_dots_pin(s@, i, j, k, d1 as int, d2 as int, d3 as int);
                    let p = choose|p: int| d3 < p < len && s@[p] == 46u8;
                    lemma_octet_no_sep(s@, k + 1, s@.len() as int);
                    assert(s@[p] != 46u8);
                }
            }
        }
        return None;
    }
    let o1 = parse_octet(s, 0, d1);
    let o2 = parse_octet(s, d1 + 1, d2);
    let o3 = parse_octet(s, d2 + 1, d3);
    let o4 = parse_octet(s, d3 + 1, len);
    proof {
        if ipv4_ok(s@) {
            let (i, j, k) = choose|i: int, j: int, k: int| ipv4_split_at(s@, i, j, k);
            lemma_dots_pin(s@, i, j, k, d1 as int, d2 as int, d3 as int);
        }
    }
    match (o1, o2, o3, o4) {
        (Some(v1), Some(v2), Some(v3), Some(v4)) => {
            let value: u32 = (v1 as u32) * 0x1000000 + (v2 as u32) * 0x10000 + (v3 as u32) * 0x100
                + (v4 as u32);
            proof {
                assert(ipv4_split_at(s@, d1 as int, d2 as int, d3 as int));
                let (i, j, k) = choose|i: int, j: int, k: int| ipv4_split_at(s@, i, j, k);
                lemma_split_unique(s@, d1 as int, d2 as int, d3 as int, i, j, k);
            }
            Some(value)
        }
        _ => {
            // One field failed, so no split exists: any split's dots are
            // exactly the three found, and its octets would have parsed.
            None
        }
    }
}

/// Parses `s[from..]` as a prefix field no wider than `max`.
fn parse_prefix(s: &Vec<u8>, from: usize, max: u8) -> (r: Option<u8>)
    requires
        from <= s.len(),
    ensures
        r == spec_parse_prefix(s@.subrange(from as int, s@.len() as int), max as nat),
{
    let ghost seg = s@.subrange(from as int, s@.len() as int);
    let mut m: usize = from;
    if m < s.len() && s[m] == 43 {
        m = m + 1;
        proof {
            assert(prefix_digits(seg) =~= s@.subrange(m as int, s@.len() as int));
        }
    } else {
        proof {
            assert(prefix_digits(seg) =~= s@.subrange(m as int, s@.len() as int));
        }
    }
    let ghost d = prefix_digits(seg);
    if m == s.len() {
        return None;
    }
    let mut acc: u32 = 0;
    let mut over: bool = false;
    let mut i: usize = m;
    while i < s.len()
        invariant
            from <= m <= i <= s@.len(),
            s.len() == s@.len(),
            d == s@.subrange(m as int, s@.len() as int),
            d == prefix_digits(seg),
            seg == s@.subrange(from as int, s@.len() as int),
            forall|p: int| m <= p < i ==> is_digit(s@[p]),
            !over ==> acc as nat == dec_value(d.take(i - m)) && acc <= max,
            over ==> dec_value(d.take(i - m)) > max as nat,
        decreases s@.len() - i,
    {
        let b = s[i];
        assert(d[i - m] == b);
        if b < 48 || b > 57 {
            assert(!is_digit(d[i - m]));
            return None;
        }
        let dv: u32 = (b - 48) as u32;
        proof {
            assert(d.take(i - m + 1).drop_last() =~= d.take(i - m));
            assert(d.take(i - m + 1).last() == d[i - m]);
        }
        if !over {
            let nv: u32 = acc * 10 + dv;
            if nv > max as u32 {
                over = true;
            } else {
                acc = nv;
            }
        }
        i = i + 1;
    }
    proof {
        assert(d.take(i - m) =~= d);
    }
    if over {
        None
    } else {
        Some(acc as u8)
    }
}

impl Subnet {
    /// Parses one `address/prefix` configuration line into a normalized
    /// subnet. The address field is a dotted quad or a colon form; the
    /// prefix must not exceed the address family's width.
    pub fn parse(line: &Vec<u8>) -> (r: Result<Subnet, Error>)
        ensures
            r == spec_parse_subnet(line@),
            r matches Ok(s) ==> s.wf(),
    {
        let len: usize = line.len();
        let mut n: usize = 0;
        let mut found: usize = 0;
        let mut sl: usize = 0;
        let mut sl2: usize = 0;
        while n < len
            invariant
                n <= len,
                len == line@.len(),
                found <= 2,
                found == 0 ==> forall|p: int| 0 <= p < n ==> line@[p] != 47u8,
                found >= 1 ==> sl < n && line@[sl as int] == 47u8 && (forall|p: int|
                    0 <= p < sl ==> line@[p] != 47u8),
                found == 1 ==> forall|p: int| sl < p < n ==> line@[p] != 47u8,
                found == 2 ==> sl < sl2 < n && line@[sl2 as int] == 47u8,
            decreases len - n,
        {
            if line[n] == 47 {
                if found == 0 {
                    sl = n;
                    found = 1;
                } else if found == 1 {
                    sl2 = n;
                    found = 2;
                }
            }
            n = n + 1;
        }
        if found != 1 {
            proof {
                if exists|i: int| slash_split_at(line@, i) {
                    let i = choose|i: int| slash_split_at(line@, i);
                    if found == 0 {
                        assert(line@[i] != 47u8);
                    } else {
                        // Two slashes exist; the split position can miss at
                        // most one of them.
                        if i != sl {
                            assert(line@[sl as int] != 47u8);
                        } else {
                            assert(line@[sl2 as int] != 47u8);
                        }
                    }
                }
            }
            return Err(Error::Field);
        }
        proof {
            assert(slash_split_at(line@, sl as int));
            let ci = choose|i: int| slash_split_at(line@, i);
            if ci != sl {
                assert(line@[sl as int] != 47u8);
            }
        }
        let mut ab: Vec<u8> = Vec::new();
        let mut t: usize = 0;
        while t < sl
            invariant
                t <= sl < len,
                len == line@.len(),
                ab@ == line@.subrange(0, t as int),
            decreases sl - t,
        {
            ab.push(line[t]);
            t = t + 1;
            proof {
                assert(ab@ =~= line@.subrange(0, t as int));
            }
        }
        match parse_ipv4_bytes(&ab) {
            Some(a) => {
                match parse_prefix(line, sl + 1, 32) {
                    Some(p) => Ok(Subnet::new(IpAddr::V4(a), p)),
                    None => Err(Error::Prefix),
                }
            }
            None => {
                match parse_ipv6_bytes(&ab) {
                    Some(v) => {
                        proof {
                            lemma_parse_ipv6_bound(ab@);
                        }
                        match parse_prefix(line, sl + 1, 128) {
                            Some(p) => Ok(Subnet::new(IpAddr::V6(v), p)),
                            None => Err(Error::Prefix),
                        }
                    }
                    None => Err(Error::Address),
                }
            }
        }
    }
}

} // verus!
