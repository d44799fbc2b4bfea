//! The staged capability model.
//!
//! The process must start with exactly three permitted capabilities —
//! override file permissions, administer namespaces, administer the
//! network — and an empty effective set; anything else is a misconfigured
//! deployment and fatal. Across a run the permitted set only shrinks:
//! three permanent one-way drops mark irreversible progress, and by
//! handoff both sets are empty.

use vstd::prelude::*;

use crate::error::Error;

verus! {

/// A capability set, reduced to what the tool cares about: the three
/// capabilities it uses, and a count of any others.
#[derive(Copy, Clone, Debug, PartialEq, Eq, Structural)]
pub struct CapSet {
    /// May bypass file permission checks.
    pub dac_override: bool,
    /// May administer namespaces: create them, switch into them.
    pub sys_admin: bool,
    /// May administer network devices, addresses and routes.
    pub net_admin: bool,
    /// How many capabilities beyond those three the set holds.
    pub other: u64,
}

impl CapSet {
    /// No capability at all.
    pub open spec fn is_empty(self) -> bool {
        !self.dac_override && !self.sys_admin && !self.net_admin && self.other == 0
    }

    /// Every capability here is also in `o`.
    pub open spec fn subset_of(self, o: CapSet) -> bool {
        &&& (self.dac_override ==> o.dac_override)
        &&& (self.sys_admin ==> o.sys_admin)
        &&& (self.net_admin ==> o.net_admin)
        &&& self.other <= o.other
    }

    /// Builds the empty set.
    pub fn empty() -> (r: CapSet)
        ensures
            r.is_empty(),
    {
        CapSet { dac_override: false, sys_admin: false, net_admin: false, other: 0 }
    }
}

/// The deployment precondition: permitted exactly the three capabilities
/// the run needs, effective empty.
pub open spec fn startup_caps_ok(permitted: CapSet, effective: CapSet) -> bool {
    &&& permitted.dac_override
    &&& permitted.sys_admin
    &&& permitted.net_admin
    &&& permitted.other == 0
    &&& effective.is_empty()
}

/// The process's capability state. It shrinks monotonically: no method
/// ever adds a permitted capability, and the effective set stays empty
/// between operations — each privileged call scopes its one capability
/// inside the call itself.
#[derive(Copy, Clone, Debug)]
pub struct PrivilegeState {
    permitted: CapSet,
    effective: CapSet,
}

impl PrivilegeState {
    /// The permitted set.
    pub closed spec fn spec_permitted(self) -> CapSet {
        self.permitted
    }

    /// The effective set.
    pub closed spec fn spec_effective(self) -> CapSet {
        self.effective
    }

    /// Nothing is elevated between operations.
    pub open spec fn quiescent(self) -> bool {
        self.spec_effective().is_empty() && self.spec_permitted().other == 0
    }

    /// Both sets are empty: nothing elevated remains for the target
    /// program.
    pub open spec fn fully_dropped(self) -> bool {
        self.spec_permitted().is_empty() && self.spec_effective().is_empty()
    }

    /// The permitted set, as a value.
    pub fn permitted_snapshot(&self) -> (r: CapSet)
        ensures
            r == self.spec_permitted(),
    {
        self.permitted
    }

    /// The effective set, as a value.
    pub fn effective_snapshot(&self) -> (r: CapSet)
        ensures
            r == self.spec_effective(),
    {
        self.effective
    }

    /// Validates the deployment precondition and adopts the state.
    /// Success is owed exactly on the expected startup sets.
    pub fn startup(permitted: CapSet, effective: CapSet) -> (r: Result<PrivilegeState, Error>)
        ensures
            r is Ok <==> startup_caps_ok(permitted, effective),
            r matches Ok(st) ==> st.spec_permitted() == permitted && st.spec_effective()
                == effective && st.quiescent(),
            r is Err ==> r == Err::<PrivilegeState, Error>(Error::Deployment),
    {
        if permitted.dac_override && permitted.sys_admin && permitted.net_admin && permitted.other
            == 0 && !effective.dac_override && !effective.sys_admin && !effective.net_admin
            && effective.other == 0 {
            Ok(PrivilegeState { permitted, effective })
        } else {
            Err(Error::Deployment)
        }
    }

    /// Permanent drop: give up overriding file permissions. Nothing else
    /// changes, and the permitted set only shrinks.
    pub fn drop_dac_override(&mut self)
        ensures
            final(self).spec_permitted() == (CapSet {
                dac_override: false,
                ..old(self).spec_permitted()
            }),
            final(self).spec_effective() == old(self).spec_effective(),
            final(self).spec_permitted().subset_of(old(self).spec_permitted()),
    {
        self.permitted.dac_override = false;
    }

    /// Permanent drop: give up administering namespaces.
    pub fn drop_sys_admin(&mut self)
        ensures
            final(self).spec_permitted() == (CapSet {
                sys_admin: false,
                ..old(self).spec_permitted()
            }),
            final(self).spec_effective() == old(self).spec_effective(),
            final(self).spec_permitted().subset_of(old(self).spec_permitted()),
    {
        self.permitted.sys_admin = false;
    }

    /// Permanent drop: give up administering the network.
    pub fn drop_net_admin(&mut self)
        ensures
            final(self).spec_permitted() == (CapSet {
                net_admin: false,
                ..old(self).spec_permitted()
            }),
            final(self).spec_effective() == old(self).spec_effective(),
            final(self).spec_permitted().subset_of(old(self).spec_permitted()),
    {
        self.permitted.net_admin = false;
    }
}

} // verus!
