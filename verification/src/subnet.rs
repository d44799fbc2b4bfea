//! Subnets: a network identity plus a prefix length.
//!
//! Construction normalizes the address by masking, so two subnets that
//! differ only in host bits are equal values afterwards. Candidate host
//! addresses are drawn from a time-derived entropy source; every draw lies
//! inside the subnet, and collision handling is the caller's business.

use vstd::prelude::*;

use crate::ip::{mask_ip, mask_v4, mask_v6, IpAddr};
use crate::ip::{lemma_mask_idempotent, mask_addr};

verus! {

/// A subnet: network address plus prefix length. The address is always
/// normalized: every bit below the prefix is clear.
#[derive(Copy, Clone, Debug, PartialEq, Eq, Hash, Structural)]
pub struct Subnet {
    address: IpAddr,
    prefix: u8,
}

/// Why a textual subnet failed to parse.
#[derive(Copy, Clone, Debug, PartialEq, Eq, Structural)]
pub enum Error {
    /// The address part is not a well-formed IP address.
    Address,
    /// The prefix part is not a decimal number the address family admits.
    Prefix,
    /// The line does not have exactly one `/` separating two fields.
    Field,
}

/// The host part of a 32-bit entropy value under a prefix: the high
/// `prefix` bits (the network identity) cleared.
pub open spec fn host_bits_v4(e: u32, prefix: u8) -> u32 {
    if prefix == 0 {
        e
    } else if prefix >= 32 {
        0u32
    } else {
        (e << (prefix as u32)) >> (prefix as u32)
    }
}

/// The host part of a 128-bit entropy value under a prefix.
pub open spec fn host_bits_v6(e: u128, prefix: u8) -> u128 {
    if prefix == 0 {
        e
    } else if prefix >= 128 {
        0u128
    } else {
        (e << (prefix as u128)) >> (prefix as u128)
    }
}

/// ORing a pure host part onto a normalized 32-bit network address stays
/// inside the network: masking the result gives the network back.
proof fn lemma_or_host_v4(a: u32, e: u32, prefix: u8)
    requires
        a == mask_v4(a, prefix),
    ensures
        mask_v4(a | host_bits_v4(e, prefix), prefix) == a,
{
    if prefix == 0 {
        assert(mask_v4(a | host_bits_v4(e, 0), 0) == 0u32);
    } else if prefix >= 32 {
        assert(a | 0u32 == a) by (bit_vector);
    } else {
        let pp: u32 = prefix as u32;
        let sh: u32 = (32 - prefix) as u32;
        assert((((a | ((e << pp) >> pp))) >> sh) << sh == a) by (bit_vector)
            requires
                0 < pp < 32,
                sh == 32 - pp,
                a == (a >> sh) << sh,
        ;
    }
}

/// ORing a pure host part onto a normalized 128-bit network address stays
/// inside the network.
proof fn lemma_or_host_v6(a: u128, e: u128, prefix: u8)
    requires
        a == mask_v6(a, prefix),
    ensures
        mask_v6(a | host_bits_v6(e, prefix), prefix) == a,
{
    if prefix == 0 {
        assert(mask_v6(a | host_bits_v6(e, 0), 0) == 0u128);
    } else if prefix >= 128 {
        assert(a | 0u128 == a) by (bit_vector);
    } else {
        let pp: u128 = prefix as u128;
        let sh: u128 = (128 - prefix) as u128;
        assert((((a | ((e << pp) >> pp))) >> sh) << sh == a) by (bit_vector)
            requires
                0 < pp < 128,
                sh == 128 - pp,
                a == (a >> sh) << sh,
        ;
    }
}

/// Relies on std::time::SystemTime::now and std::time::Duration::as_nanos:
/// a time-derived entropy source. Nothing is promised of the value, so
/// every caller must hold for every possible result.
#[verifier::external_body]
fn time_entropy() -> u128 {
    std::time::SystemTime::now()
        .duration_since(std::time::UNIX_EPOCH)
        .map(|d| d.as_nanos())
        .unwrap_or(0)
}

impl Subnet {
    /// The stored network address.
    pub closed spec fn spec_address(self) -> IpAddr {
        self.address
    }

    /// The stored prefix length.
    pub closed spec fn spec_prefix(self) -> u8 {
        self.prefix
    }

    /// The subnet is normalized: its address carries no host bits.
    pub open spec fn wf(self) -> bool {
        self.spec_address() == mask_ip(self.spec_address(), self.spec_prefix())
    }

    /// The subnet a construction from this address and prefix yields.
    pub closed spec fn spec_new(address: IpAddr, prefix: u8) -> Subnet {
        Subnet { address: mask_ip(address, prefix), prefix }
    }

    /// An address belongs to the subnet: same family, and masking it down
    /// to the prefix gives exactly the subnet's network address.
    pub open spec fn spec_contains(self, addr: IpAddr) -> bool {
        &&& addr.same_family(self.spec_address())
        &&& mask_ip(addr, self.spec_prefix()) == self.spec_address()
    }

    /// Builds a subnet, masking the address down to its network identity.
    pub fn new(address: IpAddr, prefix: u8) -> (r: Subnet)
        ensures
            r == Subnet::spec_new(address, prefix),
            r.spec_address() == mask_ip(address, prefix),
            r.spec_prefix() == prefix,
            r.wf(),
    {
        let masked = mask_addr(address, prefix);
        proof {
            lemma_mask_idempotent(address, prefix);
        }
        Subnet { address: masked, prefix }
    }

    /// The network address.
    pub fn address(&self) -> (r: IpAddr)
        ensures
            r == self.spec_address(),
    {
        self.address
    }

    /// The prefix length.
    pub fn prefix(&self) -> (r: u8)
        ensures
            r == self.spec_prefix(),
    {
        self.prefix
    }

    /// True iff the address lies inside the subnet. Always false across
    /// address families; otherwise the address is masked down to the
    /// subnet's prefix and compared with the network address.
    pub fn contains(&self, addr: IpAddr) -> (r: bool)
        ensures
            r == self.spec_contains(addr),
    {
        match (self.address, addr) {
            (IpAddr::V4(_), IpAddr::V4(_)) => {}
            (IpAddr::V6(_), IpAddr::V6(_)) => {}
            _ => {
                return false;
            }
        }
        let m = mask_addr(addr, self.prefix);
        m == self.address
    }

    /// Draws a candidate host address: time-derived entropy with its
    /// network-identity bits cleared, ORed onto the network address. Every
    /// draw lies inside the subnet; nothing more is promised, and collision
    /// avoidance is the caller's retry loop.
    pub fn random(&self) -> (r: IpAddr)
        requires
            self.wf(),
        ensures
            self.spec_contains(r),
            r.same_family(self.spec_address()),
    {
        let e = time_entropy();
        match self.address {
            IpAddr::V4(a) => {
                let e32: u32 = e as u32;
                let host: u32 = if self.prefix == 0 {
                    e32
                } else if self.prefix >= 32 {
                    0u32
                } else {
                    (e32 << (self.prefix as u32)) >> (self.prefix as u32)
                };
                proof {
                    lemma_or_host_v4(a, e32, self.prefix);
                }
                IpAddr::V4(a | host)
            }
            IpAddr::V6(a) => {
                let host: u128 = if self.prefix == 0 {
                    e
                } else if self.prefix >= 128 {
                    0u128
                } else {
                    (e << (self.prefix as u128)) >> (self.prefix as u128)
                };
                proof {
                    lemma_or_host_v6(a, e, self.prefix);
                }
                IpAddr::V6(a | host)
            }
        }
    }
}

/// A subnet contains its own network address.
pub proof fn lemma_contains_own_address(s: Subnet)
    requires
        s.wf(),
    ensures
        s.spec_contains(s.spec_address()),
{
}

/// Normalization equates subnets that differ only in host bits: two
/// addresses with one network identity construct one subnet value.
pub proof fn lemma_normalization_equates(a1: IpAddr, a2: IpAddr, prefix: u8)
    requires
        mask_ip(a1, prefix) == mask_ip(a2, prefix),
    ensures
        Subnet::spec_new(a1, prefix) == Subnet::spec_new(a2, prefix),
{
}

} // verus!
