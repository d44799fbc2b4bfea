//! The ordered provisioning state machine.
//!
//! A run walks fixed stages, each a hard barrier: configuration metadata,
//! subnet list, gateway resolution, the namespace usage scan, namespace
//! creation, device creation and moves, the switch into the new
//! namespace, address assignment, loopback, handoff. Every step requires
//! its stage, so a caller cannot reorder them; the capability drops are
//! tied to the barriers, and by handoff nothing elevated remains. The
//! surrounding binary performs the syscalls and the routing-channel
//! conversation between steps and reports their outcomes back in.

use vstd::prelude::*;

use crate::address::{first_gateway, group_gateways, grouped, resolve_gateways, Address, Group};
use crate::address::{index_from, lemma_first_gateway_matches};
use crate::config::{config_meta_ok, from_lines, is_comment};
use crate::error::{Error, Operation};
use crate::ip::IpAddr;
use crate::parse::spec_parse_subnet;
use crate::privilege::{startup_caps_ok, CapSet, PrivilegeState};
use crate::scan::{contains_ip, in_some_subnet, record_used};
use crate::subnet::Subnet;

verus! {

/// The stage a provisioning run stands in.
#[derive(Copy, Clone, Debug, PartialEq, Eq, Structural)]
pub enum Phase {
    /// Awaiting the configuration file's ownership and mode bits.
    ConfigMeta,
    /// Awaiting the configuration lines.
    LoadConfig,
    /// Awaiting the host address listing, to resolve gateways.
    ResolveGateways,
    /// Scanning every namespace for in-use addresses.
    Scan,
    /// Awaiting creation of the fresh namespace.
    CreateNamespace,
    /// Creating derived devices and moving them in, one per group.
    CreateDevices,
    /// Awaiting the switch into the new namespace.
    EnterNamespace,
    /// Assigning addresses, activating devices, installing routes.
    Assign,
    /// Configuring the loopback device.
    Loopback,
    /// Ready to hand control to the target program.
    Handoff,
    /// Aborted: no further step is taken.
    Failed,
}

/// The decimal digits of a positive number, most significant first;
/// empty for zero.
pub open spec fn dec_rec(n: nat) -> Seq<u8>
    decreases n,
{
    if n == 0 {
        Seq::empty()
    } else {
        dec_rec(n / 10).push((48 + n % 10) as u8)
    }
}

/// The decimal rendering of a number: `0` alone, else its digits.
pub open spec fn dec_digits(n: nat) -> Seq<u8> {
    if n == 0 {
        seq![48u8]
    } else {
        dec_rec(n)
    }
}

/// The deterministic name of the device created for the k-th group:
/// `ipvl` followed by the decimal index.
pub open spec fn device_name_spec(k: nat) -> Seq<u8> {
    seq![105u8, 112u8, 118u8, 108u8] + dec_digits(k)
}

/// Appends the decimal digits of `v` (nothing for zero).
fn push_dec(out: &mut Vec<u8>, v: usize)
    ensures
        final(out)@ == old(out)@ + dec_rec(v as nat),
    decreases v,
{
    if v == 0 {
        proof {
            assert(out@ =~= old(out)@ + dec_rec(0));
        }
    } else {
        proof {
            assert(v / 10 < v) by (nonlinear_arith)
                requires
                    v >= 1,
            ;
        }
        push_dec(out, v / 10);
        let d: u8 = (48 + (v % 10)) as u8;
        out.push(d);
        proof {
            assert(out@ =~= old(out)@ + dec_rec(v as nat));
        }
    }
}

/// Builds the k-th device name.
pub fn device_name(k: usize) -> (r: Vec<u8>)
    ensures
        r@ == device_name_spec(k as nat),
{
    let mut out: Vec<u8> = Vec::new();
    out.push(105);
    out.push(112);
    out.push(118);
    out.push(108);
    if k == 0 {
        out.push(48);
    } else {
        push_dec(&mut out, k);
    }
    proof {
        assert(out@ =~= device_name_spec(k as nat));
    }
    out
}

/// Decimal digit sequences of positive numbers are injective.
proof fn lemma_dec_rec_injective(a: nat, b: nat)
    requires
        dec_rec(a) == dec_rec(b),
    ensures
        a == b,
    decreases a + b,
{
    if a == 0 {
        if b != 0 {
            assert(dec_rec(b).len() > 0);
        }
    } else if b == 0 {
        assert(dec_rec(a).len() > 0);
    } else {
        assert(dec_rec(a) == dec_rec(a / 10).push((48 + a % 10) as u8));
        assert(dec_rec(b) == dec_rec(b / 10).push((48 + b % 10) as u8));
        assert(dec_rec(a).last() == (48 + a % 10) as u8);
        assert(dec_rec(b).last() == (48 + b % 10) as u8);
        assert((48 + a % 10) as u8 == (48 + b % 10) as u8);
        assert(a % 10 == b % 10);
        assert(dec_rec(a).drop_last() =~= dec_rec(a / 10));
        assert(dec_rec(b).drop_last() =~= dec_rec(b / 10));
        assert(dec_rec(a / 10) == dec_rec(b / 10));
        assert(a / 10 + b / 10 < a + b) by (nonlinear_arith)
            requires
                a >= 1,
                b >= 1,
        ;
        lemma_dec_rec_injective(a / 10, b / 10);
        assert(a == 10 * (a / 10) + a % 10) by (nonlinear_arith);
        assert(b == 10 * (b / 10) + b % 10) by (nonlinear_arith);
    }
}

/// Decimal renderings are injective.
proof fn lemma_dec_digits_injective(a: nat, b: nat)
    requires
        dec_digits(a) == dec_digits(b),
    ensures
        a == b,
{
    if a == 0 && b != 0 {
        if b < 10 {
            assert(dec_rec(b) =~= seq![(48 + b % 10) as u8]);
            assert(dec_rec(b)[0] != 48u8);
        } else {
            assert(dec_rec(b / 10).len() > 0);
            assert(dec_rec(b).len() >= 2);
        }
    } else if b == 0 && a != 0 {
        if a < 10 {
            assert(dec_rec(a) =~= seq![(48 + a % 10) as u8]);
            assert(dec_rec(a)[0] != 48u8);
        } else {
            assert(dec_rec(a / 10).len() > 0);
            assert(dec_rec(a).len() >= 2);
        }
    } else if a != 0 && b != 0 {
        lemma_dec_rec_injective(a, b);
    }
}

/// Naming is deterministic and collision-free: two distinct creation
/// indexes give two distinct device names.
pub proof fn lemma_device_names_distinct(k1: nat, k2: nat)
    requires
        k1 != k2,
    ensures
        device_name_spec(k1) != device_name_spec(k2),
{
    if device_name_spec(k1) == device_name_spec(k2) {
        assert(dec_digits(k1) =~= dec_digits(k2)) by {
            assert(device_name_spec(k1).len() == 4 + dec_digits(k1).len());
            assert forall|p: int| 0 <= p < dec_digits(k1).len() implies dec_digits(k1)[p]
                == dec_digits(k2)[p] by {
                assert(device_name_spec(k1)[p + 4] == dec_digits(k1)[p]);
                assert(device_name_spec(k2)[p + 4] == dec_digits(k2)[p]);
            }
        }
        lemma_dec_digits_injective(k1, k2);
    }
}

/// An address the selector must never hand out: the subnet's own network
/// address, or — for a 32-bit subnet narrower than its full width — the
/// all-ones host companion (the broadcast address).
pub open spec fn spec_reserved(s: Subnet, a: IpAddr) -> bool {
    ||| a == s.spec_address()
    ||| match (s.spec_address(), a) {
        (IpAddr::V4(net), IpAddr::V4(x)) => s.spec_prefix() < 32 && x == (net | (!0u32 >> (
        s.spec_prefix() as u32))),
        _ => false,
    }
}

/// True iff the candidate is reserved in the subnet.
fn is_reserved(s: &Subnet, a: IpAddr) -> (r: bool)
    ensures
        r == spec_reserved(*s, a),
{
    let net = s.address();
    if a == net {
        return true;
    }
    match (net, a) {
        (IpAddr::V4(n), IpAddr::V4(x)) => {
            let p = s.prefix();
            if p < 32 {
                x == (n | (!0u32 >> (p as u32)))
            } else {
                false
            }
        }
        _ => false,
    }
}

/// How many draws the collision-avoiding selector makes before giving
/// up on an exhausted subnet.
pub const DRAW_ATTEMPTS: u32 = 4096;

/// Draws candidate addresses until one is neither reserved nor in use.
///
/// Every success lies in the subnet, is not the network address, is not
/// the 32-bit all-ones host companion, and is absent from the in-use
/// set. The draws come from a time-derived source, so success cannot be
/// owed: a subnet that yields nothing within the attempt bound fails
/// with `Exhausted`.
pub fn choose_address(s: &Subnet, used: &Vec<IpAddr>) -> (r: Result<IpAddr, Error>)
    requires
        s.wf(),
    ensures
        r matches Ok(a) ==> s.spec_contains(a) && !used@.contains(a) && !spec_reserved(*s, a),
        r is Err ==> r == Err::<IpAddr, Error>(Error::Exhausted),
{
    let mut tries: u32 = 0;
    while tries < DRAW_ATTEMPTS
        invariant
            s.wf(),
        decreases DRAW_ATTEMPTS - tries,
    {
        let cand = s.random();
        if !is_reserved(s, cand) && !contains_ip(used, cand) {
            return Ok(cand);
        }
        tries = tries + 1;
    }
    Err(Error::Exhausted)
}

/// One planned assignment on a created device.
#[derive(Copy, Clone, Debug, PartialEq, Eq, Structural)]
pub struct Assignment {
    /// The chosen address.
    pub address: IpAddr,
    /// The prefix to bind it under: the owning subnet's own.
    pub prefix: u8,
    /// The gateway address the default route points at.
    pub gateway: IpAddr,
}

/// Every configured subnet is normalized.
pub open spec fn subnets_wf(subnets: Seq<Subnet>) -> bool {
    forall|i: int| 0 <= i < subnets.len() ==> (#[trigger] subnets[i]).wf()
}

/// No configured subnet repeats.
pub open spec fn subnets_distinct(subnets: Seq<Subnet>) -> bool {
    forall|a: int, b: int| 0 <= a < b < subnets.len() ==> subnets[a] != subnets[b]
}

/// The in-use set holds no duplicate.
pub open spec fn used_wf(used: Seq<IpAddr>) -> bool {
    forall|a: int, b: int| 0 <= a < b < used.len() ==> used[a] != used[b]
}

/// The provisioning state machine.
pub struct Provisioner {
    phase: Phase,
    privs: PrivilegeState,
    subnets: Vec<Subnet>,
    gateways: Vec<Address>,
    groups: Vec<Group>,
    used: Vec<IpAddr>,
    moved: usize,
}

impl Provisioner {
    /// The current stage.
    pub closed spec fn spec_phase(self) -> Phase {
        self.phase
    }

    /// The capability state.
    pub closed spec fn spec_privs(self) -> PrivilegeState {
        self.privs
    }

    /// The configured subnets, deduplicated, in configuration order.
    pub closed spec fn spec_subnets(self) -> Seq<Subnet> {
        self.subnets@
    }

    /// The per-subnet gateways, in configuration order.
    pub closed spec fn spec_gateways(self) -> Seq<Address> {
        self.gateways@
    }

    /// The gateways grouped by owning host interface.
    pub closed spec fn spec_groups(self) -> Seq<Group> {
        self.groups@
    }

    /// Every address observed in use in a configured subnet.
    pub closed spec fn spec_used(self) -> Seq<IpAddr> {
        self.used@
    }

    /// How many devices were created and moved so far.
    pub closed spec fn spec_moved(self) -> nat {
        self.moved as nat
    }

    /// The staged-drop invariant: the effective set is empty between
    /// operations, and each permanent capability drop has happened by
    /// its barrier — file-permission override before the namespace is
    /// created, namespace administration before addresses are assigned,
    /// everything by handoff.
    pub open spec fn caps_wf(self) -> bool {
        &&& self.spec_privs().quiescent()
        &&& match self.spec_phase() {
            Phase::CreateNamespace | Phase::CreateDevices | Phase::EnterNamespace => !self.spec_privs().spec_permitted().dac_override,
            Phase::Assign | Phase::Loopback => !self.spec_privs().spec_permitted().dac_override
                && !self.spec_privs().spec_permitted().sys_admin,
            Phase::Handoff => self.spec_privs().fully_dropped(),
            _ => true,
        }
    }

    /// The machine's invariant: staged drops on schedule, every subnet
    /// normalized, the in-use set duplicate-free, the move counter within
    /// the plan, and no device moved before the device stage.
    pub open spec fn wf(self) -> bool {
        &&& self.caps_wf()
        &&& subnets_wf(self.spec_subnets())
        &&& subnets_distinct(self.spec_subnets())
        &&& used_wf(self.spec_used())
        &&& self.spec_moved() <= self.spec_groups().len()
        &&& match self.spec_phase() {
            Phase::ConfigMeta | Phase::LoadConfig | Phase::ResolveGateways | Phase::Scan
                | Phase::CreateNamespace => self.spec_moved() == 0,
            _ => true,
        }
    }

    /// Starts a run: validates the deployment precondition and stands at
    /// the configuration gate. Success is owed exactly on the expected
    /// startup capability sets.
    pub fn new(permitted: CapSet, effective: CapSet) -> (r: Result<Provisioner, Error>)
        ensures
            r is Ok <==> startup_caps_ok(permitted, effective),
            r matches Ok(p) ==> {
                &&& p.wf()
                &&& p.spec_phase() == Phase::ConfigMeta
                &&& p.spec_privs().spec_permitted() == permitted
                &&& p.spec_subnets().len() == 0
                &&& p.spec_groups().len() == 0
                &&& p.spec_used().len() == 0
            },
            r is Err ==> r == Err::<Provisioner, Error>(Error::Deployment),
    {
        match PrivilegeState::startup(permitted, effective) {
            Ok(privs) => Ok(
                Provisioner {
                    phase: Phase::ConfigMeta,
                    privs,
                    subnets: Vec::new(),
                    gateways: Vec::new(),
                    groups: Vec::new(),
                    used: Vec::new(),
                    moved: 0,
                },
            ),
            Err(e) => Err(e),
        }
    }

    /// The current stage.
    pub fn phase(&self) -> (r: Phase)
        ensures
            r == self.spec_phase(),
    {
        self.phase
    }

    /// The configured subnets.
    pub fn subnets(&self) -> (r: &Vec<Subnet>)
        ensures
            r@ == self.spec_subnets(),
    {
        &self.subnets
    }

    /// The gateway groups.
    pub fn groups(&self) -> (r: &Vec<Group>)
        ensures
            r@ == self.spec_groups(),
    {
        &self.groups
    }

    /// True iff nothing elevated remains in either capability set.
    pub fn privileges_empty(&self) -> (r: bool)
        ensures
            r == self.spec_privs().fully_dropped(),
    {
        let p = self.privs.permitted_snapshot();
        let e = self.privs.effective_snapshot();
        !p.dac_override && !p.sys_admin && !p.net_admin && p.other == 0 && !e.dac_override
            && !e.sys_admin && !e.net_admin && e.other == 0
    }

    /// The observed in-use addresses.
    pub fn used(&self) -> (r: &Vec<IpAddr>)
        ensures
            r@ == self.spec_used(),
    {
        &self.used
    }

    /// Stage one: the configuration file's ownership and permission
    /// gate, before any line is parsed. Success is owed exactly on a
    /// root-owned file with no permission bit set; refusal fails the run.
    pub fn check_config_meta(&mut self, uid: u32, mode: u32) -> (r: Result<(), Error>)
        requires
            old(self).wf(),
            old(self).spec_phase() == Phase::ConfigMeta,
        ensures
            final(self).wf(),
            r is Ok <==> config_meta_ok(uid, mode),
            r is Ok ==> final(self).spec_phase() == Phase::LoadConfig,
            r is Err ==> final(self).spec_phase() == Phase::Failed,
            uid != 0 ==> r == Err::<(), Error>(
                Error::Config(crate::error::ConfigError::Ownership),
            ),
            uid == 0 && mode % 0o10000 != 0 ==> r == Err::<(), Error>(
                Error::Config(crate::error::ConfigError::Permissions),
            ),
            final(self).spec_privs() == old(self).spec_privs(),
            final(self).spec_subnets() == old(self).spec_subnets(),
            final(self).spec_used() == old(self).spec_used(),
            final(self).spec_groups() == old(self).spec_groups(),
            final(self).spec_gateways() == old(self).spec_gateways(),
            final(self).spec_moved() == old(self).spec_moved(),
    {
        match crate::config::check_config_meta(uid, mode) {
            Ok(()) => {
                self.phase = Phase::LoadConfig;
                Ok(())
            }
            Err(e) => {
                self.phase = Phase::Failed;
                Err(e)
            }
        }
    }

    /// Stage two: parse the configuration lines into the deduplicated
    /// subnet list. Success is owed exactly when every non-comment line
    /// parses; a bad line fails the run naming the line and its fault.
    pub fn load_config(&mut self, lines: &Vec<Vec<u8>>) -> (r: Result<(), Error>)
        requires
            old(self).wf(),
            old(self).spec_phase() == Phase::LoadConfig,
        ensures
            final(self).wf(),
            r is Ok ==> {
                &&& final(self).spec_phase() == Phase::ResolveGateways
                &&& forall|j: int|
                    0 <= j < lines@.len() && !is_comment(lines@[j]@) ==> spec_parse_subnet(
                        lines@[j]@,
                    ) is Ok
                &&& forall|a: int, b: int|
                    0 <= a < b < final(self).spec_subnets().len() ==> final(self).spec_subnets()[a]
                        != final(self).spec_subnets()[b]
                &&& forall|idx: int|
                    0 <= idx < final(self).spec_subnets().len() ==> from_lines(
                        lines@,
                        lines@.len() as int,
                        #[trigger] final(self).spec_subnets()[idx],
                    )
                &&& forall|j: int|
                    0 <= j < lines@.len() && !is_comment(#[trigger] lines@[j]@)
                        && spec_parse_subnet(lines@[j]@) is Ok ==> final(self).spec_subnets().contains(spec_parse_subnet(lines@[j]@)->Ok_0)
            },
            r is Err ==> final(self).spec_phase() == Phase::Failed && exists|i: int|
                {
                    &&& 0 <= i < lines@.len()
                    &&& !is_comment(#[trigger] lines@[i]@)
                    &&& spec_parse_subnet(lines@[i]@) is Err
                    &&& r == Err::<(), Error>(
                        Error::Config(
                            crate::error::ConfigError::Line(
                                i as usize,
                                spec_parse_subnet(lines@[i]@)->Err_0,
                            ),
                        ),
                    )
                },
            final(self).spec_privs() == old(self).spec_privs(),
            final(self).spec_used() == old(self).spec_used(),
            final(self).spec_groups() == old(self).spec_groups(),
            final(self).spec_gateways() == old(self).spec_gateways(),
            final(self).spec_moved() == old(self).spec_moved(),
            r is Err ==> final(self).spec_subnets() == old(self).spec_subnets(),
    {
        match crate::config::load_config(lines) {
            Ok(subs) => {
                self.subnets = subs;
                self.phase = Phase::ResolveGateways;
                Ok(())
            }
            Err(e) => {
                self.phase = Phase::Failed;
                Err(e)
            }
        }
    }

    /// Stage three: resolve each configured subnet to its gateway — the
    /// first listed host address inside it — and group the gateways by
    /// owning interface. Success is owed exactly when every subnet has a
    /// gateway; one subnet without aborts with `NotFound` before any
    /// namespace or device exists.
    pub fn resolve(&mut self, addrs: &Vec<Address>) -> (r: Result<(), Error>)
        requires
            old(self).wf(),
            old(self).spec_phase() == Phase::ResolveGateways,
        ensures
            final(self).wf(),
            final(self).spec_subnets() == old(self).spec_subnets(),
            r is Ok ==> {
                &&& final(self).spec_phase() == Phase::Scan
                &&& final(self).spec_gateways().len() == final(self).spec_subnets().len()
                &&& forall|i: int|
                    0 <= i < final(self).spec_subnets().len() ==> first_gateway(
                        final(self).spec_subnets()[i],
                        addrs@,
                    ) == Some(#[trigger] final(self).spec_gateways()[i])
                &&& forall|a: int, b: int|
                    0 <= a < b < final(self).spec_groups().len() ==> final(self).spec_groups()[a].if_index != final(self).spec_groups()[b].if_index
                &&& forall|k: int, t: int|
                    0 <= k < final(self).spec_groups().len() && 0 <= t < final(self).spec_groups()[k].gateways@.len() ==> (#[trigger] final(self).spec_groups()[k].gateways@[t]).if_index == final(self).spec_groups()[k].if_index && final(self).spec_gateways().contains(
                        final(self).spec_groups()[k].gateways@[t],
                    )
                &&& forall|i: int|
                    0 <= i < final(self).spec_gateways().len() ==> grouped(
                        #[trigger] final(self).spec_gateways()[i],
                        final(self).spec_groups(),
                    )
                &&& forall|k: int|
                    0 <= k < final(self).spec_groups().len() ==> index_from(
                        final(self).spec_gateways(),
                        (#[trigger] final(self).spec_groups()[k]).if_index,
                    )
                &&& forall|i: int, j: int|
                    0 <= i < j < final(self).spec_gateways().len() ==> final(self).spec_gateways()[i] != final(self).spec_gateways()[j]
                &&& forall|k: int, t1: int, t2: int|
                    0 <= k < final(self).spec_groups().len() && 0 <= t1 < t2 < final(self).spec_groups()[k].gateways@.len() ==> (#[trigger] final(self).spec_groups()[k].gateways@[t1]) != (#[trigger] final(self).spec_groups()[k].gateways@[t2])
            },
            r is Err ==> {
                &&& final(self).spec_phase() == Phase::Failed
                &&& r == Err::<(), Error>(Error::NotFound)
                &&& exists|i: int|
                    0 <= i < old(self).spec_subnets().len() && first_gateway(
                        #[trigger] old(self).spec_subnets()[i],
                        addrs@,
                    ) is None
                &&& final(self).spec_groups() == old(self).spec_groups()
                &&& final(self).spec_gateways() == old(self).spec_gateways()
            },
            final(self).spec_privs() == old(self).spec_privs(),
            final(self).spec_used() == old(self).spec_used(),
            final(self).spec_moved() == old(self).spec_moved(),
    {
        match resolve_gateways(&self.subnets, addrs) {
            Ok(gws) => {
                proof {
                    // Distinct subnets have distinct gateway records: a
                    // record's own subnet is the one it was found for.
                    assert forall|i: int, j: int| 0 <= i < j < gws@.len() implies gws@[i]
                        != gws@[j] by {
                        lemma_first_gateway_matches(self.subnets@[i], addrs@);
                        lemma_first_gateway_matches(self.subnets@[j], addrs@);
                    }
                }
                let groups = group_gateways(&gws);
                self.gateways = gws;
                self.groups = groups;
                self.phase = Phase::Scan;
                Ok(())
            }
            Err(e) => {
                self.phase = Phase::Failed;
                Err(e)
            }
        }
    }

    /// During the scan: fold one namespace's address listing into the
    /// in-use set. Every listed address lying in a configured subnet is
    /// recorded; nothing recorded is lost, and nothing else is added.
    pub fn record_namespace(&mut self, addrs: &Vec<IpAddr>)
        requires
            old(self).wf(),
            old(self).spec_phase() == Phase::Scan,
        ensures
            final(self).wf(),
            final(self).spec_phase() == Phase::Scan,
            final(self).spec_subnets() == old(self).spec_subnets(),
            final(self).spec_groups() == old(self).spec_groups(),
            final(self).spec_gateways() == old(self).spec_gateways(),
            final(self).spec_privs() == old(self).spec_privs(),
            final(self).spec_moved() == old(self).spec_moved(),
            forall|idx: int|
                0 <= idx < final(self).spec_used().len() ==> old(self).spec_used().contains(
                    #[trigger] final(self).spec_used()[idx],
                ) || (addrs@.contains(final(self).spec_used()[idx]) && in_some_subnet(
                    old(self).spec_subnets(),
                    final(self).spec_used()[idx],
                )),
            forall|x: IpAddr|
                old(self).spec_used().contains(x) ==> final(self).spec_used().contains(x),
            forall|i: int|
                0 <= i < addrs@.len() && in_some_subnet(old(self).spec_subnets(), #[trigger] addrs@[i])
                    ==> final(self).spec_used().contains(addrs@[i]),
    {
        record_used(&self.subnets, addrs, &mut self.used);
    }

    /// Closes the scan: the first permanent capability drop — no further
    /// need to override file permissions — and on to namespace creation.
    pub fn finish_scan(&mut self)
        requires
            old(self).wf(),
            old(self).spec_phase() == Phase::Scan,
        ensures
            final(self).wf(),
            final(self).spec_phase() == Phase::CreateNamespace,
            !final(self).spec_privs().spec_permitted().dac_override,
            final(self).spec_privs().spec_permitted().subset_of(
                old(self).spec_privs().spec_permitted(),
            ),
            final(self).spec_subnets() == old(self).spec_subnets(),
            final(self).spec_groups() == old(self).spec_groups(),
            final(self).spec_gateways() == old(self).spec_gateways(),
            final(self).spec_used() == old(self).spec_used(),
            final(self).spec_moved() == old(self).spec_moved(),
    {
        self.privs.drop_dac_override();
        self.phase = Phase::CreateNamespace;
    }

    /// The fresh namespace exists and the caller is back in the original
    /// one, holding handles to both: on to device creation.
    pub fn namespace_created(&mut self)
        requires
            old(self).wf(),
            old(self).spec_phase() == Phase::CreateNamespace,
        ensures
            final(self).wf(),
            final(self).spec_phase() == Phase::CreateDevices,
            final(self).spec_moved() == 0,
            final(self).spec_subnets() == old(self).spec_subnets(),
            final(self).spec_groups() == old(self).spec_groups(),
            final(self).spec_gateways() == old(self).spec_gateways(),
            final(self).spec_used() == old(self).spec_used(),
            final(self).spec_privs() == old(self).spec_privs(),
    {
        self.phase = Phase::CreateDevices;
    }

    /// How many devices the plan creates: one per gateway group.
    pub fn device_count(&self) -> (r: usize)
        ensures
            r == self.spec_groups().len(),
    {
        self.groups.len()
    }

    /// How many devices were created and moved so far.
    pub fn devices_moved(&self) -> (r: usize)
        ensures
            r == self.spec_moved(),
    {
        self.moved
    }

    /// One more device was created and moved into the new namespace;
    /// after the last one the run advances to entering the namespace.
    pub fn device_moved(&mut self)
        requires
            old(self).wf(),
            old(self).spec_phase() == Phase::CreateDevices,
            old(self).spec_moved() < old(self).spec_groups().len(),
        ensures
            final(self).wf(),
            final(self).spec_moved() == old(self).spec_moved() + 1,
            final(self).spec_phase() == (if final(self).spec_moved() == final(self).spec_groups().len() {
                Phase::EnterNamespace
            } else {
                Phase::CreateDevices
            }),
            final(self).spec_subnets() == old(self).spec_subnets(),
            final(self).spec_groups() == old(self).spec_groups(),
            final(self).spec_gateways() == old(self).spec_gateways(),
            final(self).spec_used() == old(self).spec_used(),
            final(self).spec_privs() == old(self).spec_privs(),
    {
        let total = self.groups.len();
        self.moved = self.moved + 1;
        if self.moved == total {
            self.phase = Phase::EnterNamespace;
        }
    }

    /// A device could not be moved into the new namespace. The caller
    /// has already deleted the just-created device; whatever that delete
    /// did, the run aborts with the move error — a delete failure never
    /// masks it — and no further device is created.
    pub fn device_move_failed(&mut self, move_code: i32, delete_failed: bool) -> (r: Error)
        requires
            old(self).wf(),
            old(self).spec_phase() == Phase::CreateDevices,
        ensures
            final(self).wf(),
            final(self).spec_phase() == Phase::Failed,
            r == Error::Syscall(Operation::DeviceMove, move_code),
            final(self).spec_subnets() == old(self).spec_subnets(),
            final(self).spec_groups() == old(self).spec_groups(),
            final(self).spec_gateways() == old(self).spec_gateways(),
            final(self).spec_used() == old(self).spec_used(),
            final(self).spec_privs() == old(self).spec_privs(),
            final(self).spec_moved() == old(self).spec_moved(),
    {
        let _ = delete_failed;
        self.phase = Phase::Failed;
        Error::Syscall(Operation::DeviceMove, move_code)
    }

    /// The caller switched into the new namespace and released both saved
    /// handles: the second permanent capability drop — no further
    /// namespace administration — and on to address assignment.
    pub fn entered_namespace(&mut self)
        requires
            old(self).wf(),
            old(self).spec_phase() == Phase::EnterNamespace,
        ensures
            final(self).wf(),
            final(self).spec_phase() == Phase::Assign,
            !final(self).spec_privs().spec_permitted().sys_admin,
            !final(self).spec_privs().spec_permitted().dac_override,
            final(self).spec_privs().spec_permitted().subset_of(
                old(self).spec_privs().spec_permitted(),
            ),
            final(self).spec_subnets() == old(self).spec_subnets(),
            final(self).spec_groups() == old(self).spec_groups(),
            final(self).spec_gateways() == old(self).spec_gateways(),
            final(self).spec_used() == old(self).spec_used(),
            final(self).spec_moved() == old(self).spec_moved(),
    {
        self.privs.drop_sys_admin();
        self.phase = Phase::Assign;
    }

    /// Plans the assignment for one gateway of one group: a fresh
    /// address drawn from the gateway's subnet, never one observed in
    /// use, never the network address or the 32-bit all-ones host
    /// companion; bound under the subnet's prefix, routed via the
    /// gateway. An exhausted subnet fails with `Exhausted`.
    pub fn assign_for(&self, k: usize, t: usize) -> (r: Result<Assignment, Error>)
        requires
            self.wf(),
            self.spec_phase() == Phase::Assign,
            k < self.spec_groups().len(),
            t < self.spec_groups()[k as int].gateways@.len(),
        ensures
            r matches Ok(asg) ==> {
                let gw = self.spec_groups()[k as int].gateways@[t as int];
                &&& gw.spec_subnet().spec_contains(asg.address)
                &&& !self.spec_used().contains(asg.address)
                &&& !spec_reserved(gw.spec_subnet(), asg.address)
                &&& asg.prefix == gw.prefix
                &&& asg.gateway == gw.ip
            },
            r is Err ==> r == Err::<Assignment, Error>(Error::Exhausted),
    {
        let grp = &self.groups[k];
        let gw = grp.gateways[t];
        let sn = gw.subnet();
        match choose_address(&sn, &self.used) {
            Ok(a) => Ok(Assignment { address: a, prefix: sn.prefix(), gateway: gw.ip }),
            Err(e) => Err(e),
        }
    }

    /// Every created device carries its addresses and routes: on to the
    /// loopback device.
    pub fn assignments_done(&mut self)
        requires
            old(self).wf(),
            old(self).spec_phase() == Phase::Assign,
        ensures
            final(self).wf(),
            final(self).spec_phase() == Phase::Loopback,
            final(self).spec_privs() == old(self).spec_privs(),
            final(self).spec_subnets() == old(self).spec_subnets(),
            final(self).spec_groups() == old(self).spec_groups(),
            final(self).spec_gateways() == old(self).spec_gateways(),
            final(self).spec_used() == old(self).spec_used(),
            final(self).spec_moved() == old(self).spec_moved(),
    {
        self.phase = Phase::Loopback;
    }

    /// The loopback device is addressed and active: the third permanent
    /// capability drop — no further network administration. Nothing
    /// elevated remains in either set, and the run stands at handoff.
    pub fn loopback_done(&mut self)
        requires
            old(self).wf(),
            old(self).spec_phase() == Phase::Loopback,
        ensures
            final(self).wf(),
            final(self).spec_phase() == Phase::Handoff,
            final(self).spec_privs().fully_dropped(),
            final(self).spec_subnets() == old(self).spec_subnets(),
            final(self).spec_groups() == old(self).spec_groups(),
            final(self).spec_gateways() == old(self).spec_gateways(),
            final(self).spec_used() == old(self).spec_used(),
            final(self).spec_moved() == old(self).spec_moved(),
    {
        self.privs.drop_net_admin();
        self.phase = Phase::Handoff;
    }
}

/// At handoff nothing elevated remains: a well-formed run that reached
/// the handoff stage holds empty permitted and effective sets.
pub proof fn lemma_handoff_unprivileged(p: Provisioner)
    requires
        p.wf(),
        p.spec_phase() == Phase::Handoff,
    ensures
        p.spec_privs().fully_dropped(),
{
}

/// The loopback address and prefix for the 32-bit family.
pub fn loopback_v4() -> (r: (IpAddr, u8))
    ensures
        r.0 == IpAddr::V4(0x7f000001),
        r.1 == 8u8,
{
    (IpAddr::V4(0x7f000001), 8)
}

/// The loopback address and prefix for the 128-bit family.
pub fn loopback_v6() -> (r: (IpAddr, u8))
    ensures
        r.0 == IpAddr::V6(1),
        r.1 == 128u8,
{
    (IpAddr::V6(1), 128)
}

} // verus!
