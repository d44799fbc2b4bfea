//! Address records, gateway resolution and gateway grouping.
//!
//! An address record is what one entry of the current namespace's address
//! listing boils down to: the address, the prefix it is bound under, and
//! the kernel index of the owning interface. Each configured subnet must
//! be anchored by the first record lying inside it — its gateway; the
//! gateways are then grouped by owning interface, since one host
//! interface may serve several subnets.

use vstd::prelude::*;

use crate::error::Error;
use crate::ip::IpAddr;
use crate::subnet::Subnet;

verus! {

/// One address record listed in the calling thread's current namespace.
#[derive(Copy, Clone, Debug, PartialEq, Eq, Structural)]
pub struct Address {
    /// The assigned address.
    pub ip: IpAddr,
    /// The prefix the address is bound under.
    pub prefix: u8,
    /// The kernel index of the owning interface in that namespace.
    pub if_index: u32,
}

impl Address {
    /// The owning subnet reconstructed from the raw record.
    pub open spec fn spec_subnet(self) -> Subnet {
        Subnet::spec_new(self.ip, self.prefix)
    }

    /// The assigned address.
    pub fn address(&self) -> (r: IpAddr)
        ensures
            r == self.ip,
    {
        self.ip
    }

    /// Reconstructs the owning subnet: the record's address masked down
    /// to the record's prefix.
    pub fn subnet(&self) -> (r: Subnet)
        ensures
            r == self.spec_subnet(),
            r.wf(),
            r.spec_prefix() == self.prefix,
            r.spec_address() == crate::ip::mask_ip(self.ip, self.prefix),
    {
        Subnet::new(self.ip, self.prefix)
    }
}

/// The first record whose owning subnet is exactly `s`, scanning from
/// the front of the listing.
pub open spec fn first_gateway(s: Subnet, addrs: Seq<Address>) -> Option<Address>
    decreases addrs.len(),
{
    if addrs.len() == 0 {
        None
    } else if addrs[0].spec_subnet() == s {
        Some(addrs[0])
    } else {
        first_gateway(s, addrs.drop_first())
    }
}

/// No gateway exists exactly when no record's subnet matches.
pub proof fn lemma_first_gateway_none(s: Subnet, addrs: Seq<Address>)
    ensures
        first_gateway(s, addrs) is None <==> forall|i: int|
            0 <= i < addrs.len() ==> (#[trigger] addrs[i]).spec_subnet() != s,
    decreases addrs.len(),
{
    if addrs.len() > 0 {
        lemma_first_gateway_none(s, addrs.drop_first());
        assert forall|i: int|
            0 <= i < addrs.len() && first_gateway(s, addrs) is None implies (
        #[trigger] addrs[i]).spec_subnet() != s by {
            if i > 0 {
                assert(addrs.drop_first()[i - 1] == addrs[i]);
            }
        }
        if forall|i: int| 0 <= i < addrs.len() ==> (#[trigger] addrs[i]).spec_subnet() != s {
            assert forall|i: int| 0 <= i < addrs.drop_first().len() implies (
            #[trigger] addrs.drop_first()[i]).spec_subnet() != s by {
                assert(addrs.drop_first()[i] == addrs[i + 1]);
            }
        }
    }
}

/// A found gateway's own subnet is the one searched for.
pub proof fn lemma_first_gateway_matches(s: Subnet, addrs: Seq<Address>)
    ensures
        first_gateway(s, addrs) matches Some(g) ==> g.spec_subnet() == s,
    decreases addrs.len(),
{
    if addrs.len() > 0 && addrs[0].spec_subnet() != s {
        lemma_first_gateway_matches(s, addrs.drop_first());
    }
}

/// Finds the subnet's gateway: the first listed record lying inside it.
pub fn find_gateway(s: Subnet, addrs: &Vec<Address>) -> (r: Option<Address>)
    ensures
        r == first_gateway(s, addrs@),
{
    let mut n: usize = 0;
    proof {
        assert(addrs@.skip(0) =~= addrs@);
    }
    while n < addrs.len()
        invariant
            n <= addrs@.len(),
            first_gateway(s, addrs@) == first_gateway(s, addrs@.skip(n as int)),
        decreases addrs@.len() - n,
    {
        let g = addrs[n];
        let gs = g.subnet();
        proof {
            assert(addrs@.skip(n as int)[0] == addrs@[n as int]);
            assert(addrs@.skip(n as int).drop_first() =~= addrs@.skip(n + 1));
        }
        if gs == s {
            return Some(g);
        }
        n = n + 1;
    }
    None
}

/// Resolves every configured subnet to its gateway, in configuration
/// order. Success is owed exactly when each subnet has a matching local
/// record; one subnet without a gateway aborts with `NotFound` before
/// anything is created.
pub fn resolve_gateways(subnets: &Vec<Subnet>, addrs: &Vec<Address>) -> (r: Result<
    Vec<Address>,
    Error,
>)
    ensures
        r matches Ok(gws) ==> {
            &&& gws@.len() == subnets@.len()
            &&& forall|i: int|
                0 <= i < subnets@.len() ==> first_gateway(subnets@[i], addrs@) == Some(
                    #[trigger] gws@[i],
                )
        },
        r is Err ==> r == Err::<Vec<Address>, Error>(Error::NotFound) && exists|i: int|
            0 <= i < subnets@.len() && first_gateway(#[trigger] subnets@[i], addrs@) is None,
{
    let mut out: Vec<Address> = Vec::new();
    let mut n: usize = 0;
    while n < subnets.len()
        invariant
            n <= subnets@.len(),
            out@.len() == n,
            forall|i: int|
                0 <= i < n ==> first_gateway(subnets@[i], addrs@) == Some(#[trigger] out@[i]),
        decreases subnets@.len() - n,
    {
        match find_gateway(subnets[n], addrs) {
            Some(g) => {
                out.push(g);
            }
            None => {
                return Err(Error::NotFound);
            }
        }
        n = n + 1;
    }
    Ok(out)
}

/// One group: a host interface and every gateway it anchors.
#[derive(Clone, Debug)]
pub struct Group {
    /// The kernel index of the host interface.
    pub if_index: u32,
    /// The gateways served by that interface, in resolution order.
    pub gateways: Vec<Address>,
}

/// The gateway appears in a group carrying its own interface index.
pub open spec fn grouped(g: Address, r: Seq<Group>) -> bool {
    exists|k: int|
        0 <= k < r.len() && (#[trigger] r[k]).if_index == g.if_index && r[k].gateways@.contains(g)
}

/// Some gateway's owning interface has this index.
pub open spec fn index_from(gws: Seq<Address>, v: u32) -> bool {
    exists|i: int| 0 <= i < gws.len() && (#[trigger] gws[i]).if_index == v
}

/// Deduplicated owning-interface indexes, first appearance kept.
fn dedup_indexes(gws: &Vec<Address>) -> (r: Vec<u32>)
    ensures
        forall|a: int, b: int| 0 <= a < b < r@.len() ==> r@[a] != r@[b],
        forall|i: int| 0 <= i < gws@.len() ==> r@.contains(#[trigger] gws@[i].if_index),
        forall|j: int| 0 <= j < r@.len() ==> index_from(gws@, #[trigger] r@[j]),
{
    let mut out: Vec<u32> = Vec::new();
    let mut n: usize = 0;
    while n < gws.len()
        invariant
            n <= gws@.len(),
            forall|a: int, b: int| 0 <= a < b < out@.len() ==> out@[a] != out@[b],
            forall|i: int| 0 <= i < n ==> out@.contains(#[trigger] gws@[i].if_index),
            forall|j: int| 0 <= j < out@.len() ==> index_from(gws@, #[trigger] out@[j]),
        decreases gws@.len() - n,
    {
        let idx = gws[n].if_index;
        let ghost prev = out@;
        let mut have = false;
        let mut m: usize = 0;
        while m < out.len()
            invariant
                m <= out@.len(),
                have <==> exists|j: int| 0 <= j < m && out@[j] == idx,
            decreases out@.len() - m,
        {
            if out[m] == idx {
                have = true;
                proof {
                    assert(out@[m as int] == idx);
                }
            }
            m = m + 1;
        }
        if !have {
            out.push(idx);
            proof {
                assert(out@[prev.len() as int] == idx);
                assert forall|x: u32| prev.contains(x) implies out@.contains(x) by {
                    let t = prev.lemma_contains_to_index(x);
                    assert(out@[t] == x);
                }
                assert(index_from(gws@, idx)) by {
                    assert(0 <= n < gws@.len() && gws@[n as int].if_index == idx);
                }
                assert forall|j: int| 0 <= j < out@.len() implies index_from(
                    gws@,
                    #[trigger] out@[j],
                ) by {
                    if j < prev.len() {
                        assert(out@[j] == prev[j]);
                    } else {
                        assert(out@[j] == idx);
                    }
                }
            }
        } else {
            proof {
                let j = choose|j: int| 0 <= j < out@.len() && out@[j] == idx;
                assert(out@.contains(idx));
            }
        }
        n = n + 1;
    }
    out
}

/// The gateway stands among the first `n` of the sequence.
pub open spec fn from_prefix(gws: Seq<Address>, n: int, x: Address) -> bool {
    exists|i: int| 0 <= i < n && gws[i] == x
}

/// A witness below a bound is a witness below any larger bound.
proof fn lemma_from_prefix_widen(gws: Seq<Address>, n: int, m: int, x: Address)
    requires
        from_prefix(gws, n, x),
        n <= m,
    ensures
        from_prefix(gws, m, x),
{
    let i = choose|i: int| 0 <= i < n && gws[i] == x;
    assert(0 <= i < m && gws[i] == x);
}

/// Every gateway of `gws` whose owning interface is `idx`, in order,
/// each exactly once when the input holds no duplicate.
fn collect_for(gws: &Vec<Address>, idx: u32) -> (r: Vec<Address>)
    requires
        forall|i: int, j: int| 0 <= i < j < gws@.len() ==> gws@[i] != gws@[j],
    ensures
        forall|t: int|
            0 <= t < r@.len() ==> (#[trigger] r@[t]).if_index == idx && gws@.contains(r@[t]),
        forall|i: int|
            0 <= i < gws@.len() && (#[trigger] gws@[i]).if_index == idx ==> r@.contains(gws@[i]),
        forall|t1: int, t2: int| 0 <= t1 < t2 < r@.len() ==> r@[t1] != r@[t2],
{
    let mut out: Vec<Address> = Vec::new();
    let mut n: usize = 0;
    while n < gws.len()
        invariant
            n <= gws@.len(),
            forall|i: int, j: int| 0 <= i < j < gws@.len() ==> gws@[i] != gws@[j],
            forall|t: int|
                0 <= t < out@.len() ==> (#[trigger] out@[t]).if_index == idx && gws@.contains(
                    out@[t],
                ),
            forall|t: int| 0 <= t < out@.len() ==> from_prefix(gws@, n as int, #[trigger] out@[t]),
            forall|i: int|
                0 <= i < n && (#[trigger] gws@[i]).if_index == idx ==> out@.contains(gws@[i]),
            forall|t1: int, t2: int| 0 <= t1 < t2 < out@.len() ==> out@[t1] != out@[t2],
        decreases gws@.len() - n,
    {
        let g = gws[n];
        let ghost prev = out@;
        if g.if_index == idx {
            out.push(g);
            proof {
                assert(out@[prev.len() as int] == g);
                assert(gws@.contains(g)) by {
                    assert(gws@[n as int] == g);
                }
                assert forall|x: Address| prev.contains(x) implies out@.contains(x) by {
                    let t = prev.lemma_contains_to_index(x);
                    assert(out@[t] == x);
                }
                assert forall|t: int| 0 <= t < out@.len() implies (#[trigger] out@[t]).if_index
                    == idx && gws@.contains(out@[t]) by {
                    if t < prev.len() {
                        assert(out@[t] == prev[t]);
                    }
                }
                assert(from_prefix(gws@, n + 1, g)) by {
                    assert(0 <= n < n + 1 && gws@[n as int] == g);
                }
                assert forall|t: int| 0 <= t < out@.len() implies from_prefix(
                    gws@,
                    n + 1,
                    #[trigger] out@[t],
                ) by {
                    if t < prev.len() {
                        assert(out@[t] == prev[t]);
                        lemma_from_prefix_widen(gws@, n as int, n + 1, out@[t]);
                    }
                }
                // The new entry repeats no earlier one: each earlier entry
                // came from an earlier index of a duplicate-free input.
                assert forall|t: int| 0 <= t < prev.len() implies out@[t] != g by {
                    assert(out@[t] == prev[t]);
                    let i = choose|i: int| 0 <= i < n && gws@[i] == prev[t];
                    assert(gws@[i] != gws@[n as int]);
                }
            }
        } else {
            proof {
                assert forall|t: int| 0 <= t < out@.len() implies from_prefix(
                    gws@,
                    n + 1,
                    #[trigger] out@[t],
                ) by {
                    lemma_from_prefix_widen(gws@, n as int, n + 1, out@[t]);
                }
            }
        }
        n = n + 1;
    }
    out
}

/// Groups the resolved gateways by their owning host interface: one
/// group per distinct interface, first-appearance order, each group
/// holding exactly once each gateway that interface anchors. The
/// gateways are pairwise distinct, one per configured subnet.
pub fn group_gateways(gws: &Vec<Address>) -> (r: Vec<Group>)
    requires
        forall|i: int, j: int| 0 <= i < j < gws@.len() ==> gws@[i] != gws@[j],
    ensures
        forall|a: int, b: int| 0 <= a < b < r@.len() ==> r@[a].if_index != r@[b].if_index,
        forall|k: int, t: int|
            0 <= k < r@.len() && 0 <= t < r@[k].gateways@.len() ==> (#[trigger] r@[k].gateways@[t]).if_index
                == r@[k].if_index && gws@.contains(r@[k].gateways@[t]),
        forall|i: int| 0 <= i < gws@.len() ==> grouped(#[trigger] gws@[i], r@),
        forall|k: int, t1: int, t2: int|
            0 <= k < r@.len() && 0 <= t1 < t2 < r@[k].gateways@.len() ==> (
            #[trigger] r@[k].gateways@[t1]) != (#[trigger] r@[k].gateways@[t2]),
        forall|k: int| 0 <= k < r@.len() ==> index_from(gws@, (#[trigger] r@[k]).if_index),
{
    let indexes = dedup_indexes(gws);
    let mut out: Vec<Group> = Vec::new();
    let mut n: usize = 0;
    while n < indexes.len()
        invariant
            n <= indexes@.len(),
            out@.len() == n,
            forall|i: int, j: int| 0 <= i < j < gws@.len() ==> gws@[i] != gws@[j],
            forall|j: int| 0 <= j < indexes@.len() ==> index_from(gws@, #[trigger] indexes@[j]),
            forall|k: int| 0 <= k < n ==> (#[trigger] out@[k]).if_index == indexes@[k],
            forall|k: int| 0 <= k < n ==> index_from(gws@, (#[trigger] out@[k]).if_index),
            forall|k: int, t: int|
                0 <= k < n && 0 <= t < out@[k].gateways@.len() ==> (
                #[trigger] out@[k].gateways@[t]).if_index == out@[k].if_index && gws@.contains(
                    out@[k].gateways@[t],
                ),
            forall|k: int, i: int|
                0 <= k < n && 0 <= i < gws@.len() && (#[trigger] gws@[i]).if_index == (
                #[trigger] out@[k]).if_index ==> out@[k].gateways@.contains(gws@[i]),
            forall|k: int, t1: int, t2: int|
                0 <= k < n && 0 <= t1 < t2 < out@[k].gateways@.len() ==> (
                #[trigger] out@[k].gateways@[t1]) != (#[trigger] out@[k].gateways@[t2]),
        decreases indexes@.len() - n,
    {
        let idx = indexes[n];
        let members = collect_for(gws, idx);
        let ghost prev = out@;
        out.push(Group { if_index: idx, gateways: members });
        proof {
            assert forall|k: int| 0 <= k < n + 1 implies (#[trigger] out@[k]).if_index
                == indexes@[k] by {
                if k < prev.len() {
                    assert(out@[k] == prev[k]);
                }
            }
            assert forall|k: int| 0 <= k < n + 1 implies index_from(
                gws@,
                (#[trigger] out@[k]).if_index,
            ) by {
                if k < prev.len() {
                    assert(out@[k] == prev[k]);
                    assert(index_from(gws@, prev[k].if_index));
                } else {
                    assert(out@[k].if_index == indexes@[n as int]);
                    assert(index_from(gws@, indexes@[n as int]));
                }
            }
        }
        n = n + 1;
    }
    proof {
        assert forall|i: int| 0 <= i < gws@.len() implies grouped(#[trigger] gws@[i], out@) by {
            assert(indexes@.contains(gws@[i].if_index));
            let j = indexes@.lemma_contains_to_index(gws@[i].if_index);
            assert(out@[j].if_index == indexes@[j]);
            assert(out@[j].gateways@.contains(gws@[i]));
        }
    }
    out
}

} // verus!
