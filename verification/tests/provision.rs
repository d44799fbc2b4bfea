use ipvlan::address::{find_gateway, group_gateways, resolve_gateways, Address};
use ipvlan::error::{Error, Operation};
use ipvlan::ip::IpAddr;
use ipvlan::privilege::{CapSet, PrivilegeState};
use ipvlan::provision::{choose_address, device_name, loopback_v4, loopback_v6, Phase, Provisioner};
use ipvlan::subnet::Subnet;

fn v4(a: u8, b: u8, c: u8, d: u8) -> IpAddr {
    IpAddr::V4(u32::from_be_bytes([a, b, c, d]))
}

fn full_permitted() -> CapSet {
    CapSet { dac_override: true, sys_admin: true, net_admin: true, other: 0 }
}

fn no_caps() -> CapSet {
    CapSet::empty()
}

fn lines(ls: &[&str]) -> Vec<Vec<u8>> {
    ls.iter().map(|l| l.as_bytes().to_vec()).collect()
}

fn in_range(a: IpAddr, lo: u32, hi: u32) -> bool {
    match a {
        IpAddr::V4(x) => lo <= x && x <= hi,
        IpAddr::V6(_) => false,
    }
}

#[test]
fn startup_requires_exact_capability_sets() {
    assert!(PrivilegeState::startup(full_permitted(), no_caps()).is_ok());
    assert_eq!(
        PrivilegeState::startup(no_caps(), no_caps()).err(),
        Some(Error::Deployment)
    );
    let extra = CapSet { other: 1, ..full_permitted() };
    assert_eq!(
        PrivilegeState::startup(extra, no_caps()).err(),
        Some(Error::Deployment)
    );
    assert_eq!(
        PrivilegeState::startup(full_permitted(), full_permitted()).err(),
        Some(Error::Deployment)
    );
}

#[test]
fn gateway_is_first_matching_record() {
    let s = Subnet::new(v4(10, 0, 0, 0), 24);
    let addrs = vec![
        Address { ip: v4(10, 1, 0, 5), prefix: 24, if_index: 1 },
        Address { ip: v4(10, 0, 0, 5), prefix: 24, if_index: 3 },
        Address { ip: v4(10, 0, 0, 9), prefix: 24, if_index: 4 },
    ];
    let g = find_gateway(s, &addrs).unwrap();
    assert_eq!(g.if_index, 3);
    assert_eq!(g.ip, v4(10, 0, 0, 5));
}

#[test]
fn gateway_match_requires_same_prefix() {
    // A record under a different prefix owns a different subnet.
    let s = Subnet::new(v4(10, 0, 0, 0), 24);
    let addrs = vec![Address { ip: v4(10, 0, 0, 5), prefix: 16, if_index: 3 }];
    assert!(find_gateway(s, &addrs).is_none());
}

#[test]
fn missing_gateway_aborts_resolution() {
    let subnets = vec![
        Subnet::new(v4(10, 0, 0, 0), 24),
        Subnet::new(v4(10, 9, 0, 0), 24),
    ];
    let addrs = vec![Address { ip: v4(10, 0, 0, 5), prefix: 24, if_index: 3 }];
    assert_eq!(resolve_gateways(&subnets, &addrs), Err(Error::NotFound));
}

#[test]
fn grouping_collapses_shared_interface() {
    let gws = vec![
        Address { ip: v4(10, 0, 0, 5), prefix: 24, if_index: 3 },
        Address { ip: v4(10, 1, 0, 5), prefix: 24, if_index: 3 },
    ];
    let groups = group_gateways(&gws);
    assert_eq!(groups.len(), 1);
    assert_eq!(groups[0].if_index, 3);
    assert_eq!(groups[0].gateways.len(), 2);
}

#[test]
fn device_names_follow_creation_order() {
    assert_eq!(device_name(0), b"ipvl0".to_vec());
    assert_eq!(device_name(1), b"ipvl1".to_vec());
    assert_eq!(device_name(10), b"ipvl10".to_vec());
    assert_eq!(device_name(123), b"ipvl123".to_vec());
}

#[test]
fn loopback_constants() {
    assert_eq!(loopback_v4(), (v4(127, 0, 0, 1), 8));
    assert_eq!(loopback_v6(), (IpAddr::V6(1), 128));
}

#[test]
fn selector_avoids_used_and_reserved() {
    let s = Subnet::new(v4(10, 0, 0, 0), 30);
    // Hosts are .1 and .2; .0 is the network, .3 the all-ones companion.
    let used = vec![v4(10, 0, 0, 1)];
    for _ in 0..20 {
        let a = choose_address(&s, &used).unwrap();
        assert_eq!(a, v4(10, 0, 0, 2));
    }
}

#[test]
fn selector_reports_exhaustion() {
    // A full-width subnet has no assignable host at all.
    let s = Subnet::new(v4(10, 0, 0, 7), 32);
    assert_eq!(choose_address(&s, &Vec::new()), Err(Error::Exhausted));
    // Two hosts, both in use.
    let s = Subnet::new(v4(10, 0, 0, 0), 30);
    let used = vec![v4(10, 0, 0, 1), v4(10, 0, 0, 2)];
    assert_eq!(choose_address(&s, &used), Err(Error::Exhausted));
}

#[test]
fn bad_deployment_refuses_run() {
    assert!(Provisioner::new(no_caps(), no_caps()).is_err());
}

#[test]
fn config_gate_failure_ends_run() {
    let mut p = Provisioner::new(full_permitted(), no_caps()).unwrap();
    let r = p.check_config_meta(0, 0o644);
    assert!(r.is_err());
    assert_eq!(p.phase(), Phase::Failed);
}

#[test]
fn missing_gateway_aborts_before_any_creation() {
    let mut p = Provisioner::new(full_permitted(), no_caps()).unwrap();
    p.check_config_meta(0, 0).unwrap();
    p.load_config(&lines(&["10.9.0.0/24"])).unwrap();
    let host = vec![Address { ip: v4(10, 0, 0, 5), prefix: 24, if_index: 3 }];
    assert_eq!(p.resolve(&host), Err(Error::NotFound));
    assert_eq!(p.phase(), Phase::Failed);
}

#[test]
fn scenario_plain_provisioning_run() {
    let mut p = Provisioner::new(full_permitted(), no_caps()).unwrap();
    p.check_config_meta(0, 0).unwrap();
    p.load_config(&lines(&["# nets", "10.0.0.0/24"])).unwrap();
    assert_eq!(p.subnets().len(), 1);
    let host = vec![
        Address { ip: v4(192, 168, 0, 2), prefix: 24, if_index: 1 },
        Address { ip: v4(10, 0, 0, 5), prefix: 24, if_index: 3 },
    ];
    p.resolve(&host).unwrap();
    assert_eq!(p.groups().len(), 1);
    assert_eq!(p.groups()[0].if_index, 3);

    // No other namespace occupies the subnet.
    p.record_namespace(&vec![v4(192, 168, 0, 9)]);
    assert!(p.used().is_empty());
    p.finish_scan();
    p.namespace_created();
    assert_eq!(p.phase(), Phase::CreateDevices);

    assert_eq!(device_name(0), b"ipvl0".to_vec());
    assert_eq!(p.devices_moved(), 0);
    p.device_moved();
    assert_eq!(p.devices_moved(), 1);
    assert_eq!(p.phase(), Phase::EnterNamespace);
    p.entered_namespace();
    assert_eq!(p.phase(), Phase::Assign);

    let asg = p.assign_for(0, 0).unwrap();
    assert!(in_range(asg.address, 0x0a000001, 0x0a0000fe));
    assert_eq!(asg.prefix, 24);
    assert_eq!(asg.gateway, v4(10, 0, 0, 5));

    p.assignments_done();
    assert!(!p.privileges_empty());
    p.loopback_done();
    assert_eq!(p.phase(), Phase::Handoff);
    assert!(p.privileges_empty());
}

#[test]
fn scenario_occupied_address_is_never_assigned() {
    let mut p = Provisioner::new(full_permitted(), no_caps()).unwrap();
    p.check_config_meta(0, 0).unwrap();
    p.load_config(&lines(&["10.0.0.0/24"])).unwrap();
    let host = vec![Address { ip: v4(10, 0, 0, 5), prefix: 24, if_index: 3 }];
    p.resolve(&host).unwrap();
    p.record_namespace(&vec![v4(10, 0, 0, 17)]);
    assert_eq!(p.used(), &vec![v4(10, 0, 0, 17)]);
    p.finish_scan();
    p.namespace_created();
    p.device_moved();
    p.entered_namespace();
    for _ in 0..64 {
        let asg = p.assign_for(0, 0).unwrap();
        assert_ne!(asg.address, v4(10, 0, 0, 17));
        assert!(in_range(asg.address, 0x0a000001, 0x0a0000fe));
    }
}

#[test]
fn scenario_shared_interface_groups_once() {
    let mut p = Provisioner::new(full_permitted(), no_caps()).unwrap();
    p.check_config_meta(0, 0).unwrap();
    p.load_config(&lines(&["10.0.0.0/24", "10.1.0.0/24"])).unwrap();
    let host = vec![
        Address { ip: v4(10, 0, 0, 5), prefix: 24, if_index: 3 },
        Address { ip: v4(10, 1, 0, 9), prefix: 24, if_index: 3 },
    ];
    p.resolve(&host).unwrap();
    assert_eq!(p.groups().len(), 1);
    assert_eq!(p.groups()[0].gateways.len(), 2);
    assert_eq!(p.device_count(), 1);
    p.record_namespace(&Vec::new());
    p.finish_scan();
    p.namespace_created();
    p.device_moved();
    p.entered_namespace();
    let a0 = p.assign_for(0, 0).unwrap();
    let a1 = p.assign_for(0, 1).unwrap();
    assert!(in_range(a0.address, 0x0a000001, 0x0a0000fe));
    assert!(in_range(a1.address, 0x0a010001, 0x0a0100fe));
    assert_ne!(a0.address, a1.address);
    assert_eq!(a0.gateway, v4(10, 0, 0, 5));
    assert_eq!(a1.gateway, v4(10, 1, 0, 9));
}

#[test]
fn scenario_v6_subnet_provisioning() {
    let mut p = Provisioner::new(full_permitted(), no_caps()).unwrap();
    p.check_config_meta(0, 0).unwrap();
    p.load_config(&lines(&["fd00::/64"])).unwrap();
    let gw_ip = IpAddr::V6((0xfd00u128 << 112) | 1);
    let host = vec![Address { ip: gw_ip, prefix: 64, if_index: 3 }];
    p.resolve(&host).unwrap();
    p.record_namespace(&Vec::new());
    p.finish_scan();
    p.namespace_created();
    p.device_moved();
    p.entered_namespace();
    let asg = p.assign_for(0, 0).unwrap();
    match asg.address {
        IpAddr::V6(v) => {
            assert_eq!(v >> 64, 0xfd00u128 << 48);
            assert_ne!(v & ((1u128 << 64) - 1), 0);
        }
        IpAddr::V4(_) => panic!("wrong family"),
    }
    assert_eq!(asg.prefix, 64);
    assert_eq!(asg.gateway, gw_ip);
}

#[test]
fn scenario_move_failure_rolls_back_and_keeps_move_error() {
    let mut p = Provisioner::new(full_permitted(), no_caps()).unwrap();
    p.check_config_meta(0, 0).unwrap();
    p.load_config(&lines(&["10.0.0.0/24"])).unwrap();
    let host = vec![Address { ip: v4(10, 0, 0, 5), prefix: 24, if_index: 3 }];
    p.resolve(&host).unwrap();
    p.record_namespace(&Vec::new());
    p.finish_scan();
    p.namespace_created();
    // The move failed; the device was deleted, and even a failing delete
    // must not mask the move error.
    let e = p.device_move_failed(13, true);
    assert_eq!(e, Error::Syscall(Operation::DeviceMove, 13));
    assert_eq!(p.phase(), Phase::Failed);
}
