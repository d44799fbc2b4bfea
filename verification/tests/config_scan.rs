use ipvlan::config::{check_config_meta, load_config};
use ipvlan::error::{ConfigError, Error};
use ipvlan::ip::IpAddr;
use ipvlan::scan::{dedup_namespaces, record_used, NsRef};
use ipvlan::subnet;
use ipvlan::subnet::Subnet;

fn v4(a: u8, b: u8, c: u8, d: u8) -> IpAddr {
    IpAddr::V4(u32::from_be_bytes([a, b, c, d]))
}

fn lines(ls: &[&str]) -> Vec<Vec<u8>> {
    ls.iter().map(|l| l.as_bytes().to_vec()).collect()
}

#[test]
fn meta_rejects_any_read_bit() {
    assert_eq!(
        check_config_meta(0, 0o400),
        Err(Error::Config(ConfigError::Permissions))
    );
    assert_eq!(
        check_config_meta(0, 0o044),
        Err(Error::Config(ConfigError::Permissions))
    );
}

#[test]
fn meta_rejects_owner_write_bit() {
    assert_eq!(
        check_config_meta(0, 0o200),
        Err(Error::Config(ConfigError::Permissions))
    );
}

#[test]
fn meta_rejects_any_other_bit() {
    assert_eq!(
        check_config_meta(0, 0o111),
        Err(Error::Config(ConfigError::Permissions))
    );
    assert_eq!(
        check_config_meta(0, 0o4000),
        Err(Error::Config(ConfigError::Permissions))
    );
}

#[test]
fn meta_rejects_non_root_owner_first() {
    assert_eq!(
        check_config_meta(1000, 0),
        Err(Error::Config(ConfigError::Ownership))
    );
    // Ownership is judged before the mode bits.
    assert_eq!(
        check_config_meta(1000, 0o644),
        Err(Error::Config(ConfigError::Ownership))
    );
}

#[test]
fn meta_accepts_root_and_empty_mode() {
    assert_eq!(check_config_meta(0, 0), Ok(()));
}

#[test]
fn config_skips_comments_and_dedups() {
    let ls = lines(&["# gateway nets", "10.0.0.0/24", "10.0.0.99/24", "10.1.0.0/16"]);
    let subs = load_config(&ls).unwrap();
    assert_eq!(subs.len(), 2);
    assert_eq!(subs[0], Subnet::new(v4(10, 0, 0, 0), 24));
    assert_eq!(subs[1], Subnet::new(v4(10, 1, 0, 0), 16));
}

#[test]
fn config_accepts_mixed_families() {
    let ls = lines(&["10.0.0.0/24", "fd00::/64"]);
    let subs = load_config(&ls).unwrap();
    assert_eq!(subs.len(), 2);
    assert_eq!(subs[0], Subnet::new(v4(10, 0, 0, 0), 24));
    assert_eq!(subs[1], Subnet::new(IpAddr::V6(0xfd00 << 112), 64));
}

#[test]
fn config_reports_first_bad_line() {
    let ls = lines(&["# ok", "10.0.0.0/24", "10.0.0.0-24", "garbage"]);
    assert_eq!(
        load_config(&ls),
        Err(Error::Config(ConfigError::Line(2, subnet::Error::Field)))
    );
}

#[test]
fn config_reports_cause_of_bad_line() {
    let ls = lines(&["300.0.0.0/24"]);
    assert_eq!(
        load_config(&ls),
        Err(Error::Config(ConfigError::Line(0, subnet::Error::Address)))
    );
    let ls = lines(&["10.0.0.0/99"]);
    assert_eq!(
        load_config(&ls),
        Err(Error::Config(ConfigError::Line(0, subnet::Error::Prefix)))
    );
}

#[test]
fn config_empty_line_is_an_error() {
    let ls = lines(&["10.0.0.0/24", ""]);
    assert_eq!(
        load_config(&ls),
        Err(Error::Config(ConfigError::Line(1, subnet::Error::Field)))
    );
}

#[test]
fn discovery_dedups_by_object_identity() {
    // Two process handles, one underlying namespace object.
    let refs = vec![
        NsRef { dev: 4, ino: 4026531993, handle: 10 },
        NsRef { dev: 4, ino: 4026531993, handle: 11 },
        NsRef { dev: 4, ino: 4026531999, handle: 12 },
    ];
    let unique = dedup_namespaces(&refs);
    assert_eq!(unique.len(), 2);
    assert_eq!((unique[0].dev, unique[0].ino), (4, 4026531993));
    assert_eq!(unique[0].handle, 10); // first reference kept
    assert_eq!((unique[1].dev, unique[1].ino), (4, 4026531999));
}

#[test]
fn scan_records_only_matching_addresses() {
    let subnets = vec![Subnet::new(v4(10, 0, 0, 0), 24)];
    let mut used: Vec<IpAddr> = Vec::new();
    let listing = vec![v4(10, 0, 0, 17), v4(10, 1, 0, 1), v4(127, 0, 0, 1)];
    record_used(&subnets, &listing, &mut used);
    assert_eq!(used, vec![v4(10, 0, 0, 17)]);
}

#[test]
fn scan_keeps_earlier_namespaces_and_avoids_duplicates() {
    let subnets = vec![Subnet::new(v4(10, 0, 0, 0), 24)];
    let mut used: Vec<IpAddr> = Vec::new();
    record_used(&subnets, &vec![v4(10, 0, 0, 5)], &mut used);
    record_used(&subnets, &vec![v4(10, 0, 0, 5), v4(10, 0, 0, 6)], &mut used);
    assert_eq!(used, vec![v4(10, 0, 0, 5), v4(10, 0, 0, 6)]);
}
