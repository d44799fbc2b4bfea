//! IP addresses as plain machine integers, and prefix masking.
//!
//! An address is either a 32-bit or a 128-bit value; a prefix length selects
//! the high `prefix` bits as the network identity. Masking clears every bit
//! below the prefix. A shift by the full register width is avoided by
//! treating prefix `0` and prefix `>= width` explicitly.

use vstd::prelude::*;

verus! {

/// An IP address: a version-4 address as its 32-bit value, or a
/// version-6 address as its 128-bit value (network byte order collapsed
/// into one integer, most significant byte first).
#[derive(Copy, Clone, Debug, PartialEq, Eq, Hash, Structural)]
pub enum IpAddr {
    V4(u32),
    V6(u128),
}

impl IpAddr {
    pub open spec fn is_v4(self) -> bool {
        matches!(self, IpAddr::V4(_))
    }

    pub open spec fn is_v6(self) -> bool {
        matches!(self, IpAddr::V6(_))
    }

    /// Two addresses belong to the same address family.
    pub open spec fn same_family(self, other: IpAddr) -> bool {
        self.is_v4() == other.is_v4()
    }
}

/// The network identity of a 32-bit address under a prefix: the high
/// `prefix` bits kept, everything below cleared.
pub open spec fn mask_v4(a: u32, prefix: u8) -> u32 {
    if prefix == 0 {
        0u32
    } else if prefix >= 32 {
        a
    } else {
        (a >> ((32 - prefix) as u32)) << ((32 - prefix) as u32)
    }
}

/// The network identity of a 128-bit address under a prefix.
pub open spec fn mask_v6(a: u128, prefix: u8) -> u128 {
    if prefix == 0 {
        0u128
    } else if prefix >= 128 {
        a
    } else {
        (a >> ((128 - prefix) as u128)) << ((128 - prefix) as u128)
    }
}

/// Masking an address down to its network identity, family preserved.
pub open spec fn mask_ip(addr: IpAddr, prefix: u8) -> IpAddr {
    match addr {
        IpAddr::V4(a) => IpAddr::V4(mask_v4(a, prefix)),
        IpAddr::V6(a) => IpAddr::V6(mask_v6(a, prefix)),
    }
}

/// Clears every bit below the prefix, leaving the network identity.
pub fn mask_addr(addr: IpAddr, prefix: u8) -> (r: IpAddr)
    ensures
        r == mask_ip(addr, prefix),
{
    match addr {
        IpAddr::V4(a) => {
            if prefix == 0 {
                IpAddr::V4(0)
            } else if prefix >= 32 {
                IpAddr::V4(a)
            } else {
                let sh: u32 = 32 - (prefix as u32);
                IpAddr::V4((a >> sh) << sh)
            }
        }
        IpAddr::V6(a) => {
            if prefix == 0 {
                IpAddr::V6(0)
            } else if prefix >= 128 {
                IpAddr::V6(a)
            } else {
                let sh: u128 = 128 - (prefix as u128);
                IpAddr::V6((a >> sh) << sh)
            }
        }
    }
}

/// Masking is idempotent on 32-bit addresses.
pub proof fn lemma_mask_v4_idempotent(a: u32, prefix: u8)
    ensures
        mask_v4(mask_v4(a, prefix), prefix) == mask_v4(a, prefix),
{
    if 0 < prefix < 32 {
        let sh: u32 = (32 - prefix) as u32;
        assert((((a >> sh) << sh) >> sh) << sh == (a >> sh) << sh) by (bit_vector)
            requires
                0 < sh < 32,
        ;
    }
}

/// Masking is idempotent on 128-bit addresses.
pub proof fn lemma_mask_v6_idempotent(a: u128, prefix: u8)
    ensures
        mask_v6(mask_v6(a, prefix), prefix) == mask_v6(a, prefix),
{
    if 0 < prefix < 128 {
        let sh: u128 = (128 - prefix) as u128;
        assert((((a >> sh) << sh) >> sh) << sh == (a >> sh) << sh) by (bit_vector)
            requires
                0 < sh < 128,
        ;
    }
}

/// Masking an address twice under one prefix equals masking it once.
pub proof fn lemma_mask_idempotent(addr: IpAddr, prefix: u8)
    ensures
        mask_ip(mask_ip(addr, prefix), prefix) == mask_ip(addr, prefix),
{
    match addr {
        IpAddr::V4(a) => lemma_mask_v4_idempotent(a, prefix),
        IpAddr::V6(a) => lemma_mask_v6_idempotent(a, prefix),
    }
}

} // verus!
