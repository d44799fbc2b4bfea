//! Textual 128-bit addresses: colon-separated hexadecimal groups.
//!
//! The grammar is the colon form: eight groups of one to four hex digits,
//! or fewer groups with one `::` standing for the missing all-zero run
//! (which must cover at least one group). The grammar is stated as a
//! deterministic functional definition over byte sequences — `parse_tail`
//! for a run of groups, `parse_head` for the leading groups up to the end
//! or a `::` — and the executable parser is proven to return exactly what
//! the definition says. The dotted-quad-suffix form is not part of the
//! grammar.

use vstd::prelude::*;

verus! {

/// ASCII hexadecimal digit, either case.
pub open spec fn is_hex(b: u8) -> bool {
    (48 <= b && b <= 57) || (97 <= b && b <= 102) || (65 <= b && b <= 70)
}

/// The numeric value of an ASCII hexadecimal digit.
pub open spec fn hex_val(b: u8) -> nat {
    if 48 <= b && b <= 57 {
        (b - 48) as nat
    } else if 97 <= b && b <= 102 {
        (b - 87) as nat
    } else if 65 <= b && b <= 70 {
        (b - 55) as nat
    } else {
        0
    }
}

/// The length of the hexadecimal run at the head of the sequence.
pub open spec fn hex_len(s: Seq<u8>) -> nat
    decreases s.len(),
{
    if s.len() == 0 || !is_hex(s[0]) {
        0
    } else {
        1 + hex_len(s.skip(1))
    }
}

/// The value of a digit sequence read as a hexadecimal number.
pub open spec fn hex_value(s: Seq<u8>) -> nat
    decreases s.len(),
{
    if s.len() == 0 {
        0
    } else {
        hex_value(s.drop_last()) * 16 + hex_val(s.last())
    }
}

/// The weight of one 16-bit group position: 0x10000 to the k-th power.
pub open spec fn gpow(k: nat) -> nat
    decreases k,
{
    if k == 0 {
        1
    } else {
        0x10000 * gpow((k - 1) as nat)
    }
}

/// Parses a run of `:`-separated groups (the part after a `::`, possibly
/// empty): the group count, at most seven, and their big-endian value.
pub open spec fn parse_tail(s: Seq<u8>) -> Option<(nat, nat)>
    decreases s.len(),
{
    if s.len() == 0 {
        Some((0, 0))
    } else {
        let l = hex_len(s);
        if l == 0 || l > 4 {
            None
        } else if l == s.len() {
            Some((1, hex_value(s.take(l as int))))
        } else if l < s.len() && s[l as int] == 58 {
            match parse_tail(s.skip(l as int + 1)) {
                None => None,
                Some((n, v)) => if n >= 7 {
                    None
                } else {
                    Some((n + 1, hex_value(s.take(l as int)) * gpow(n) + v))
                },
            }
        } else {
            None
        }
    }
}

/// Parses the leading groups of an address text: `cnt` groups with value
/// `acc` stand before `s`. The text ends with the eighth group, or a `::`
/// hands the rest to `parse_tail` with at least one zero group between.
pub open spec fn parse_head(s: Seq<u8>, cnt: nat, acc: nat) -> Option<nat>
    decreases s.len(),
{
    let l = hex_len(s);
    if l == 0 || l > 4 {
        None
    } else {
        let g = hex_value(s.take(l as int));
        if l == s.len() {
            if cnt == 7 {
                Some(acc * 0x10000 + g)
            } else {
                None
            }
        } else if l < s.len() && s[l as int] == 58 {
            if l + 1 < s.len() && s[l as int + 1] == 58 {
                match parse_tail(s.skip(l as int + 2)) {
                    None => None,
                    Some((n, v)) => if cnt + 1 + n <= 7 {
                        Some((acc * 0x10000 + g) * gpow((7 - cnt) as nat) + v)
                    } else {
                        None
                    },
                }
            } else if cnt < 7 {
                parse_head(s.skip(l as int + 1), cnt + 1, acc * 0x10000 + g)
            } else {
                None
            }
        } else {
            None
        }
    }
}

/// What parsing a 128-bit address text yields: the address value on a
/// well-formed colon form, nothing otherwise.
pub open spec fn spec_parse_ipv6(s: Seq<u8>) -> Option<nat> {
    if s.len() >= 2 && s[0] == 58 && s[1] == 58 {
        match parse_tail(s.skip(2)) {
            None => None,
            Some((n, v)) => Some(v),
        }
    } else {
        parse_head(s, 0, 0)
    }
}

/// The hexadecimal run is within the sequence, all its bytes are hex
/// digits, and the byte after it (if any) is not.
proof fn lemma_hex_len_shape(s: Seq<u8>)
    ensures
        hex_len(s) <= s.len(),
        forall|i: int| 0 <= i < hex_len(s) ==> is_hex(#[trigger] s[i]),
        hex_len(s) < s.len() ==> !is_hex(s[hex_len(s) as int]),
    decreases s.len(),
{
    if s.len() > 0 && is_hex(s[0]) {
        lemma_hex_len_shape(s.skip(1));
        assert forall|i: int| 0 <= i < hex_len(s) implies is_hex(#[trigger] s[i]) by {
            if i > 0 {
                assert(s.skip(1)[i - 1] == s[i]);
            }
        }
        if hex_len(s) < s.len() {
            assert(s.skip(1)[hex_len(s) as int - 1] == s[hex_len(s) as int]);
        }
    }
}

/// Per-length bounds on a hexadecimal value of up to four digits.
proof fn lemma_hex_value_bound(s: Seq<u8>)
    ensures
        s.len() == 0 ==> hex_value(s) == 0,
        s.len() == 1 ==> hex_value(s) <= 0xF,
        s.len() == 2 ==> hex_value(s) <= 0xFF,
        s.len() == 3 ==> hex_value(s) <= 0xFFF,
        s.len() == 4 ==> hex_value(s) <= 0xFFFF,
    decreases s.len(),
{
    if s.len() > 0 {
        lemma_hex_value_bound(s.drop_last());
    }
}

/// Group weights are monotone in the position count.
proof fn lemma_gpow_mono(a: nat, b: nat)
    requires
        a <= b,
    ensures
        gpow(a) <= gpow(b),
    decreases b,
{
    if a < b {
        lemma_gpow_mono(a, (b - 1) as nat);
        assert(gpow((b - 1) as nat) <= 0x10000 * gpow((b - 1) as nat)) by (nonlinear_arith);
    }
}

/// Group weights multiply: the weight of a sum of positions is the
/// product of the weights.
proof fn lemma_gpow_add(a: nat, b: nat)
    ensures
        gpow(a + b) == gpow(a) * gpow(b),
    decreases a,
{
    if a == 0 {
    } else {
        lemma_gpow_add((a - 1) as nat, b);
        assert(0x10000 * (gpow((a - 1) as nat) * gpow(b)) == (0x10000 * gpow((a - 1) as nat))
            * gpow(b)) by (nonlinear_arith);
        assert((a + b - 1) as nat == (a - 1) as nat + b);
    }
}

/// A parsed tail has at most seven groups and a value below its width.
proof fn lemma_parse_tail_bound(s: Seq<u8>)
    ensures
        parse_tail(s) matches Some((n, v)) ==> n <= 7 && v < gpow(n),
    decreases s.len(),
{
    if s.len() == 0 {
        assert(gpow(0) == 1);
    } else {
        let l = hex_len(s);
        lemma_hex_len_shape(s);
        if 1 <= l <= 4 {
            lemma_hex_value_bound(s.take(l as int));
            assert(s.take(l as int).len() == l);
            if l == s.len() {
                assert(gpow(1) == 0x10000 * gpow(0));
                assert(gpow(0) == 1);
                assert(hex_value(s.take(l as int)) <= 0xFFFF);
            } else if l < s.len() && s[l as int] == 58 {
                lemma_parse_tail_bound(s.skip(l as int + 1));
                if parse_tail(s.skip(l as int + 1)) is Some {
                    let (n, v) = parse_tail(s.skip(l as int + 1))->Some_0;
                    if n < 7 {
                        let g = hex_value(s.take(l as int));
                        assert(g * gpow(n) + v < gpow(n + 1)) by (nonlinear_arith)
                            requires
                                g <= 0xFFFF,
                                v < gpow(n),
                                gpow(n + 1) == 0x10000 * gpow(n),
                        ;
                    }
                }
            }
        }
    }
}

/// A parsed head has a value below the full eight-group width.
proof fn lemma_parse_head_bound(s: Seq<u8>, cnt: nat, acc: nat)
    requires
        cnt <= 7,
        acc < gpow(cnt),
    ensures
        parse_head(s, cnt, acc) matches Some(v) ==> v < gpow(8),
    decreases s.len(),
{
    let l = hex_len(s);
    lemma_hex_len_shape(s);
    if 1 <= l <= 4 {
        let g = hex_value(s.take(l as int));
        lemma_hex_value_bound(s.take(l as int));
        assert(acc * 0x10000 + g < gpow(cnt + 1)) by (nonlinear_arith)
            requires
                g <= 0xFFFF,
                acc < gpow(cnt),
                gpow(cnt + 1) == 0x10000 * gpow(cnt),
        ;
        if l == s.len() {
            if cnt == 7 {
                assert(gpow(8) == gpow(cnt + 1));
            }
        } else if l < s.len() && s[l as int] == 58 {
            if l + 1 < s.len() && s[l as int + 1] == 58 {
                lemma_parse_tail_bound(s.skip(l as int + 2));
                if parse_tail(s.skip(l as int + 2)) is Some {
                    let (n, v) = parse_tail(s.skip(l as int + 2))->Some_0;
                    if cnt + 1 + n <= 7 {
                        lemma_gpow_add(cnt + 1, (7 - cnt) as nat);
                        lemma_gpow_mono(n, (7 - cnt) as nat);
                        let hv = acc * 0x10000 + g;
                        assert(hv * gpow((7 - cnt) as nat) + v < gpow(8)) by (nonlinear_arith)
                            requires
                                hv < gpow(cnt + 1),
                                v < gpow((7 - cnt) as nat),
                                gpow(8) == gpow(cnt + 1) * gpow((7 - cnt) as nat),
                        ;
                    }
                }
            } else if cnt < 7 {
                lemma_parse_head_bound(s.skip(l as int + 1), cnt + 1, acc * 0x10000 + g);
            }
        }
    }
}

/// A parsed address value fits the 128-bit width.
pub proof fn lemma_parse_ipv6_bound(s: Seq<u8>)
    ensures
        spec_parse_ipv6(s) matches Some(v) ==> v < 0x100000000000000000000000000000000,
{
    if s.len() >= 2 && s[0] == 58 && s[1] == 58 {
        lemma_parse_tail_bound(s.skip(2));
        if parse_tail(s.skip(2)) is Some {
            let (n, v) = parse_tail(s.skip(2))->Some_0;
            lemma_gpow_mono(n, 8);
            assert(gpow(8) == 0x100000000000000000000000000000000) by {
                reveal_with_fuel(gpow, 9);
            }
        }
    } else {
        lemma_parse_head_bound(s, 0, 0);
        assert(gpow(8) == 0x100000000000000000000000000000000) by {
            reveal_with_fuel(gpow, 9);
        }
    }
}

/// True iff the byte is a hexadecimal digit.
fn is_hex_exec(b: u8) -> (r: bool)
    ensures
        r == is_hex(b),
{
    (48 <= b && b <= 57) || (97 <= b && b <= 102) || (65 <= b && b <= 70)
}

/// The length of the hexadecimal run starting at `from`.
fn hex_len_exec(s: &Vec<u8>, from: usize) -> (r: usize)
    requires
        from <= s.len(),
    ensures
        r as nat == hex_len(s@.skip(from as int)),
        from + r <= s@.len(),
    decreases s@.len() - from,
{
    if from == s.len() {
        proof {
            assert(s@.skip(from as int) =~= Seq::<u8>::empty());
        }
        0
    } else {
        proof {
            assert(s@.skip(from as int)[0] == s@[from as int]);
        }
        if is_hex_exec(s[from]) {
            proof {
                assert(s@.skip(from as int).skip(1) =~= s@.skip(from as int + 1));
            }
            1 + hex_len_exec(s, from + 1)
        } else {
            0
        }
    }
}

/// The value of the hexadecimal digits in `s[from..to]`.
fn hex_value_exec(s: &Vec<u8>, from: usize, to: usize) -> (r: u16)
    requires
        from <= to <= s.len(),
        to - from <= 4,
        forall|p: int| from <= p < to ==> is_hex(#[trigger] s@[p]),
    ensures
        r as nat == hex_value(s@.subrange(from as int, to as int)),
{
    let ghost seg = s@.subrange(from as int, to as int);
    let mut m: usize = 0;
    let mut acc: u32 = 0;
    while m < to - from
        invariant
            m <= to - from <= 4,
            from <= to <= s@.len(),
            seg == s@.subrange(from as int, to as int),
            forall|p: int| from <= p < to ==> is_hex(#[trigger] s@[p]),
            acc as nat == hex_value(seg.take(m as int)),
            m == 0 ==> acc == 0,
            m == 1 ==> acc <= 0xF,
            m == 2 ==> acc <= 0xFF,
            m == 3 ==> acc <= 0xFFF,
            m == 4 ==> acc <= 0xFFFF,
        decreases to - from - m,
    {
        let b = s[from + m];
        assert(seg[m as int] == b);
        let dv: u32 = if b <= 57 {
            (b - 48) as u32
        } else if b >= 97 {
            (b - 87) as u32
        } else {
            (b - 55) as u32
        };
        proof {
            assert(dv as nat == hex_val(seg[m as int]));
            assert(seg.take(m as int + 1).drop_last() =~= seg.take(m as int));
            assert(seg.take(m as int + 1).last() == seg[m as int]);
        }
        acc = acc * 16 + dv;
        m = m + 1;
    }
    proof {
        assert(seg.take((to - from) as int) =~= seg);
    }
    acc as u16
}

/// The weight of the k-th group position, as a machine value.
fn gpow_exec(k: u8) -> (r: u128)
    requires
        k <= 7,
    ensures
        r as nat == gpow(k as nat),
{
    let r: u128 = if k == 0 {
        1
    } else if k == 1 {
        0x10000
    } else if k == 2 {
        0x100000000
    } else if k == 3 {
        0x1000000000000
    } else if k == 4 {
        0x10000000000000000
    } else if k == 5 {
        0x100000000000000000000
    } else if k == 6 {
        0x1000000000000000000000000
    } else {
        0x10000000000000000000000000000
    };
    proof {
        reveal_with_fuel(gpow, 9);
    }
    r
}

/// Parses a run of `:`-separated groups starting at `from`.
fn parse_tail_exec(s: &Vec<u8>, from: usize) -> (r: Option<(u8, u128)>)
    requires
        from <= s.len(),
    ensures
        r is Some <==> parse_tail(s@.skip(from as int)) is Some,
        r matches Some(p) ==> parse_tail(s@.skip(from as int)) == Some((p.0 as nat, p.1 as nat)),
    decreases s@.len() - from,
{
    let ghost seg = s@.skip(from as int);
    if from == s.len() {
        proof {
            assert(seg =~= Seq::<u8>::empty());
        }
        return Some((0, 0));
    }
    let l = hex_len_exec(s, from);
    if l == 0 || l > 4 {
        return None;
    }
    proof {
        lemma_hex_len_shape(seg);
        assert(seg.take(l as int) =~= s@.subrange(from as int, (from + l) as int));
        assert forall|p: int| from <= p < from + l implies is_hex(#[trigger] s@[p]) by {
            assert(seg[p - from] == s@[p]);
        }
    }
    let g = hex_value_exec(s, from, from + l);
    if from + l == s.len() {
        return Some((1, g as u128));
    }
    proof {
        assert(seg[l as int] == s@[(from + l) as int]);
    }
    if s[from + l] != 58 {
        return None;
    }
    proof {
        assert(seg.skip(l as int + 1) =~= s@.skip((from + l + 1) as int));
    }
    match parse_tail_exec(s, from + l + 1) {
        None => None,
        Some((n, v)) => {
            if n >= 7 {
                None
            } else {
                proof {
                    lemma_parse_tail_bound(s@.skip((from + l + 1) as int));
                    lemma_gpow_mono(n as nat, 6);
                    assert(gpow(6) == 0x1000000000000000000000000) by {
                        reveal_with_fuel(gpow, 9);
                    }
                    assert((g as nat) * gpow(n as nat) + (v as nat)
                        < 0x100000000000000000000000000000000) by (nonlinear_arith)
                        requires
                            g <= 0xFFFF,
                            (v as nat) < gpow(n as nat),
                            gpow(n as nat) <= 0x1000000000000000000000000,
                    ;
                }
                let mult = gpow_exec(n);
                Some((n + 1, (g as u128) * mult + v))
            }
        }
    }
}

/// Parses the leading groups starting at `from`, with `cnt` groups of
/// value `acc` already read.
fn parse_head_exec(s: &Vec<u8>, from: usize, cnt: u8, acc: u128) -> (r: Option<u128>)
    requires
        from <= s.len(),
        cnt <= 7,
        (acc as nat) < gpow(cnt as nat),
    ensures
        r is Some <==> parse_head(s@.skip(from as int), cnt as nat, acc as nat) is Some,
        r matches Some(v) ==> parse_head(s@.skip(from as int), cnt as nat, acc as nat) == Some(
            v as nat,
        ),
    decreases s@.len() - from,
{
    let ghost seg = s@.skip(from as int);
    let l = hex_len_exec(s, from);
    if l == 0 || l > 4 {
        return None;
    }
    proof {
        lemma_hex_len_shape(seg);
        assert(seg.take(l as int) =~= s@.subrange(from as int, (from + l) as int));
        assert forall|p: int| from <= p < from + l implies is_hex(#[trigger] s@[p]) by {
            assert(seg[p - from] == s@[p]);
        }
    }
    let g = hex_value_exec(s, from, from + l);
    proof {
        assert(gpow((cnt + 1) as nat) == 0x10000 * gpow(cnt as nat));
        assert((acc as nat) * 0x10000 + (g as nat) < gpow((cnt + 1) as nat)) by (nonlinear_arith)
            requires
                g <= 0xFFFF,
                (acc as nat) < gpow(cnt as nat),
                gpow((cnt + 1) as nat) == 0x10000 * gpow(cnt as nat),
        ;
        lemma_gpow_mono((cnt + 1) as nat, 8);
        assert(gpow(8) == 0x100000000000000000000000000000000) by {
            reveal_with_fuel(gpow, 9);
        }
    }
    let acc2: u128 = acc * 0x10000 + (g as u128);
    if from + l == s.len() {
        if cnt == 7 {
            return Some(acc2);
        }
        return None;
    }
    proof {
        assert(seg[l as int] == s@[(from + l) as int]);
    }
    if s[from + l] != 58 {
        return None;
    }
    if from + l + 1 < s.len() && s[from + l + 1] == 58 {
        proof {
            assert(seg[l as int + 1] == s@[(from + l + 1) as int]);
            assert(seg.skip(l as int + 2) =~= s@.skip((from + l + 2) as int));
        }
        match parse_tail_exec(s, from + l + 2) {
            None => None,
            Some((n, v)) => {
                if cnt + 1 + n <= 7 {
                    proof {
                        lemma_parse_tail_bound(s@.skip((from + l + 2) as int));
                        lemma_gpow_add((cnt + 1) as nat, (7 - cnt) as nat);
                        lemma_gpow_mono(n as nat, (7 - cnt) as nat);
                        assert((acc2 as nat) * gpow((7 - cnt) as nat) + (v as nat) < gpow(
                            8,
                        )) by (nonlinear_arith)
                            requires
                                (acc2 as nat) < gpow((cnt + 1) as nat),
                                (v as nat) < gpow((7 - cnt) as nat),
                                gpow(8) == gpow((cnt + 1) as nat) * gpow((7 - cnt) as nat),
                        ;
                    }
                    let mult = gpow_exec(7 - cnt);
                    Some(acc2 * mult + v)
                } else {
                    None
                }
            }
        }
    } else {
        if cnt < 7 {
            proof {
                assert(seg.skip(l as int + 1) =~= s@.skip((from + l + 1) as int));
                if from + l + 1 < s.len() {
                    assert(seg[l as int + 1] == s@[(from + l + 1) as int]);
                }
            }
            parse_head_exec(s, from + l + 1, cnt + 1, acc2)
        } else {
            None
        }
    }
}

/// Parses a whole byte sequence as a 128-bit address in the colon form.
pub fn parse_ipv6_bytes(s: &Vec<u8>) -> (r: Option<u128>)
    ensures
        r is Some <==> spec_parse_ipv6(s@) is Some,
        r matches Some(v) ==> spec_parse_ipv6(s@) == Some(v as nat),
{
    if s.len() >= 2 && s[0] == 58 && s[1] == 58 {
        match parse_tail_exec(s, 2) {
            None => None,
            Some((_, v)) => Some(v),
        }
    } else {
        proof {
            assert(s@.skip(0) =~= s@);
        }
        parse_head_exec(s, 0, 0, 0)
    }
}

} // verus!
