//! Namespace discovery and the in-use address scan.
//!
//! Discovery hands in one reference per open namespace handle; many
//! handles may name one kernel object. Deduplication keys on the
//! (device, inode) identity of the underlying object, so each distinct
//! namespace is visited exactly once. The usage scan then accumulates,
//! namespace by namespace, every address that lies in a configured
//! subnet.

use vstd::prelude::*;

use crate::ip::IpAddr;
use crate::subnet::Subnet;

verus! {

/// One namespace reference observed in the process table: the (device,
/// inode) identity of the underlying kernel object, and the observer's
/// handle number for it.
#[derive(Copy, Clone, Debug, PartialEq, Eq, Structural)]
pub struct NsRef {
    pub dev: u64,
    pub ino: u64,
    pub handle: i32,
}

/// Two references name the same kernel namespace object.
pub open spec fn same_ns(a: NsRef, b: NsRef) -> bool {
    a.dev == b.dev && a.ino == b.ino
}

/// Some entry of the sequence names the same namespace as `x`.
pub open spec fn covered(x: NsRef, out: Seq<NsRef>) -> bool {
    exists|j: int| 0 <= j < out.len() && same_ns(x, #[trigger] out[j])
}

/// A cover survives appending another entry.
proof fn lemma_covered_push(x: NsRef, out: Seq<NsRef>, e: NsRef)
    requires
        covered(x, out),
    ensures
        covered(x, out.push(e)),
{
    let j = choose|j: int| 0 <= j < out.len() && same_ns(x, #[trigger] out[j]);
    assert(0 <= j < out.push(e).len() && same_ns(x, out.push(e)[j]));
}

/// True iff the vector already holds a reference to this object.
fn seen(v: &Vec<NsRef>, x: NsRef) -> (r: bool)
    ensures
        r == covered(x, v@),
{
    let mut n: usize = 0;
    while n < v.len()
        invariant
            n <= v@.len(),
            forall|j: int| 0 <= j < n ==> !same_ns(x, #[trigger] v@[j]),
        decreases v@.len() - n,
    {
        let e = v[n];
        if e.dev == x.dev && e.ino == x.ino {
            assert(same_ns(x, v@[n as int]));
            return true;
        }
        n = n + 1;
    }
    false
}

/// Deduplicates discovered references by kernel object identity: exactly
/// one entry per distinct (device, inode) pair, the first reference kept,
/// discovery order preserved.
pub fn dedup_namespaces(refs: &Vec<NsRef>) -> (r: Vec<NsRef>)
    ensures
        forall|a: int, b: int| 0 <= a < b < r@.len() ==> !same_ns(r@[a], r@[b]),
        forall|idx: int| 0 <= idx < r@.len() ==> refs@.contains(#[trigger] r@[idx]),
        forall|i: int| 0 <= i < refs@.len() ==> covered(#[trigger] refs@[i], r@),
{
    let mut out: Vec<NsRef> = Vec::new();
    let mut n: usize = 0;
    while n < refs.len()
        invariant
            n <= refs@.len(),
            forall|a: int, b: int| 0 <= a < b < out@.len() ==> !same_ns(out@[a], out@[b]),
            forall|idx: int| 0 <= idx < out@.len() ==> refs@.contains(#[trigger] out@[idx]),
            forall|i: int| 0 <= i < n ==> covered(#[trigger] refs@[i], out@),
        decreases refs@.len() - n,
    {
        let x = refs[n];
        let ghost prev = out@;
        if !seen(&out, x) {
            out.push(x);
            proof {
                assert(out@[prev.len() as int] == x);
                assert(refs@.contains(x)) by {
                    assert(refs@[n as int] == x);
                }
                assert forall|idx: int| 0 <= idx < out@.len() implies refs@.contains(
                    #[trigger] out@[idx],
                ) by {
                    if idx < prev.len() {
                        assert(out@[idx] == prev[idx]);
                    }
                }
                assert forall|i: int| 0 <= i < n + 1 implies covered(#[trigger] refs@[i], out@) by {
                    if i < n {
                        lemma_covered_push(refs@[i], prev, x);
                    } else {
                        assert(same_ns(refs@[i], out@[prev.len() as int]));
                    }
                }
            }
        } else {
            proof {
                assert(covered(refs@[n as int], out@));
            }
        }
        n = n + 1;
    }
    out
}

/// Per distinct namespace object, deduplicated discovery holds one entry
/// and one only: two entries naming one object are the same entry.
pub proof fn lemma_one_entry_per_object(out: Seq<NsRef>, j1: int, j2: int)
    requires
        forall|a: int, b: int| 0 <= a < b < out.len() ==> !same_ns(out[a], out[b]),
        0 <= j1 < out.len(),
        0 <= j2 < out.len(),
        same_ns(out[j1], out[j2]),
    ensures
        j1 == j2,
{
    if j1 < j2 {
        assert(!same_ns(out[j1], out[j2]));
    } else if j2 < j1 {
        assert(!same_ns(out[j2], out[j1]));
        assert(same_ns(out[j2], out[j1]));
    }
}

/// Some configured subnet contains the address.
pub open spec fn in_some_subnet(subs: Seq<Subnet>, a: IpAddr) -> bool {
    exists|i: int| 0 <= i < subs.len() && (#[trigger] subs[i]).spec_contains(a)
}

/// True iff some configured subnet contains the address.
pub fn matches_any(subs: &Vec<Subnet>, a: IpAddr) -> (r: bool)
    ensures
        r == in_some_subnet(subs@, a),
{
    let mut n: usize = 0;
    while n < subs.len()
        invariant
            n <= subs@.len(),
            forall|i: int| 0 <= i < n ==> !(#[trigger] subs@[i]).spec_contains(a),
        decreases subs@.len() - n,
    {
        if subs[n].contains(a) {
            assert(subs@[n as int].spec_contains(a));
            return true;
        }
        n = n + 1;
    }
    false
}

/// True iff the vector already holds this address.
pub fn contains_ip(v: &Vec<IpAddr>, a: IpAddr) -> (r: bool)
    ensures
        r == v@.contains(a),
{
    let mut n: usize = 0;
    while n < v.len()
        invariant
            n <= v@.len(),
            forall|j: int| 0 <= j < n ==> v@[j] != a,
        decreases v@.len() - n,
    {
        if v[n] == a {
            return true;
        }
        n = n + 1;
    }
    false
}

/// Folds one namespace's address listing into the in-use set: every
/// listed address that lies in some configured subnet joins the set, the
/// set stays duplicate-free, and nothing already recorded is lost.
pub fn record_used(subnets: &Vec<Subnet>, addrs: &Vec<IpAddr>, used: &mut Vec<IpAddr>)
    requires
        forall|a: int, b: int| 0 <= a < b < old(used)@.len() ==> old(used)@[a] != old(used)@[b],
    ensures
        forall|a: int, b: int|
            0 <= a < b < final(used)@.len() ==> final(used)@[a] != final(used)@[b],
        forall|idx: int|
            0 <= idx < final(used)@.len() ==> old(used)@.contains(#[trigger] final(used)@[idx]) || (
            addrs@.contains(final(used)@[idx]) && in_some_subnet(subnets@, final(used)@[idx])),
        forall|x: IpAddr| old(used)@.contains(x) ==> final(used)@.contains(x),
        forall|i: int|
            0 <= i < addrs@.len() && in_some_subnet(subnets@, #[trigger] addrs@[i])
                ==> final(used)@.contains(addrs@[i]),
{
    let mut n: usize = 0;
    while n < addrs.len()
        invariant
            n <= addrs@.len(),
            forall|a: int, b: int| 0 <= a < b < used@.len() ==> used@[a] != used@[b],
            forall|idx: int|
                0 <= idx < used@.len() ==> old(used)@.contains(#[trigger] used@[idx]) || (
                addrs@.contains(used@[idx]) && in_some_subnet(subnets@, used@[idx])),
            forall|x: IpAddr| old(used)@.contains(x) ==> used@.contains(x),
            forall|i: int|
                0 <= i < n && in_some_subnet(subnets@, #[trigger] addrs@[i]) ==> used@.contains(
                    addrs@[i],
                ),
        decreases addrs@.len() - n,
    {
        let a = addrs[n];
        let ghost prev = used@;
        if matches_any(subnets, a) {
            if !contains_ip(used, a) {
                used.push(a);
                proof {
                    assert(used@[prev.len() as int] == a);
                    assert(addrs@.contains(a)) by {
                        assert(addrs@[n as int] == a);
                    }
                    assert forall|x: IpAddr| prev.contains(x) implies used@.contains(x) by {
                        let idx = prev.lemma_contains_to_index(x);
                        assert(used@[idx] == x);
                    }
                    assert forall|idx: int|
                        0 <= idx < used@.len() implies old(used)@.contains(#[trigger] used@[idx])
                        || (addrs@.contains(used@[idx]) && in_some_subnet(
                        subnets@,
                        used@[idx],
                    )) by {
                        if idx < prev.len() {
                            assert(used@[idx] == prev[idx]);
                        }
                    }
                    assert(used@.contains(a)) by {
                        assert(used@[prev.len() as int] == a);
                    }
                }
            }
        }
        n = n + 1;
    }
}

} // verus!
