use ipvlan::ip::IpAddr;
use ipvlan::subnet::{Error, Subnet};

fn v4(a: u8, b: u8, c: u8, d: u8) -> IpAddr {
    IpAddr::V4(u32::from_be_bytes([a, b, c, d]))
}

#[test]
fn construction_normalizes() {
    let s = Subnet::new(v4(10, 0, 0, 5), 24);
    assert_eq!(s.address(), v4(10, 0, 0, 0));
    assert_eq!(s.prefix(), 24);
}

#[test]
fn masking_is_idempotent() {
    let once = Subnet::new(v4(192, 168, 37, 201), 20);
    let twice = Subnet::new(once.address(), 20);
    assert_eq!(once, twice);
}

#[test]
fn host_bits_do_not_matter_for_equality() {
    let a = Subnet::new(v4(10, 0, 0, 1), 24);
    let b = Subnet::new(v4(10, 0, 0, 254), 24);
    assert_eq!(a, b);
}

#[test]
fn prefix_zero_masks_everything() {
    let s = Subnet::new(v4(255, 255, 255, 255), 0);
    assert_eq!(s.address(), IpAddr::V4(0));
    assert!(s.contains(v4(1, 2, 3, 4)));
}

#[test]
fn prefix_full_width_keeps_address() {
    let s = Subnet::new(v4(10, 1, 2, 3), 32);
    assert_eq!(s.address(), v4(10, 1, 2, 3));
    assert!(s.contains(v4(10, 1, 2, 3)));
    assert!(!s.contains(v4(10, 1, 2, 4)));
}

#[test]
fn contains_own_address() {
    let s = Subnet::new(v4(172, 16, 0, 0), 12);
    assert!(s.contains(s.address()));
}

#[test]
fn contains_rejects_other_network() {
    let s = Subnet::new(v4(10, 0, 0, 0), 24);
    assert!(s.contains(v4(10, 0, 0, 77)));
    assert!(!s.contains(v4(10, 0, 1, 77)));
}

#[test]
fn contains_is_false_across_families() {
    let s4 = Subnet::new(v4(10, 0, 0, 0), 24);
    assert!(!s4.contains(IpAddr::V6(1)));
    let s6 = Subnet::new(IpAddr::V6(0x20010db8 << 96), 32);
    assert!(!s6.contains(v4(10, 0, 0, 1)));
}

#[test]
fn v6_masking_and_containment() {
    let net: u128 = 0x2001_0db8_0000_0000_0000_0000_0000_0000;
    let s = Subnet::new(IpAddr::V6(net | 0xdead_beef), 64);
    assert_eq!(s.address(), IpAddr::V6(net));
    assert!(s.contains(IpAddr::V6(net | 1)));
    assert!(!s.contains(IpAddr::V6(net ^ (1 << 127))));
}

#[test]
fn v6_prefix_zero_and_full() {
    let s0 = Subnet::new(IpAddr::V6(u128::MAX), 0);
    assert_eq!(s0.address(), IpAddr::V6(0));
    let sf = Subnet::new(IpAddr::V6(42), 128);
    assert_eq!(sf.address(), IpAddr::V6(42));
}

#[test]
fn random_draws_stay_inside() {
    let s = Subnet::new(v4(10, 0, 0, 0), 24);
    for _ in 0..200 {
        assert!(s.contains(s.random()));
    }
    let s6 = Subnet::new(IpAddr::V6(0xfd00 << 112), 16);
    for _ in 0..50 {
        assert!(s6.contains(s6.random()));
    }
}

#[test]
fn parse_plain_line() {
    let s = Subnet::parse(&b"10.0.0.0/24".to_vec()).unwrap();
    assert_eq!(s.address(), v4(10, 0, 0, 0));
    assert_eq!(s.prefix(), 24);
}

#[test]
fn parse_normalizes_host_bits() {
    let s = Subnet::parse(&b"10.0.0.5/24".to_vec()).unwrap();
    assert_eq!(s.address(), v4(10, 0, 0, 0));
}

#[test]
fn parse_missing_slash_is_field_error() {
    assert_eq!(Subnet::parse(&b"10.0.0.0".to_vec()), Err(Error::Field));
}

#[test]
fn parse_two_slashes_is_field_error() {
    assert_eq!(Subnet::parse(&b"10.0.0.0/24/3".to_vec()), Err(Error::Field));
}

#[test]
fn parse_bad_address_variants() {
    assert_eq!(Subnet::parse(&b"10.0.0/24".to_vec()), Err(Error::Address));
    assert_eq!(Subnet::parse(&b"256.0.0.1/8".to_vec()), Err(Error::Address));
    assert_eq!(Subnet::parse(&b"01.2.3.4/8".to_vec()), Err(Error::Address));
    assert_eq!(Subnet::parse(&b"1.2.3.4.5/8".to_vec()), Err(Error::Address));
    assert_eq!(Subnet::parse(&b"/24".to_vec()), Err(Error::Address));
    assert_eq!(Subnet::parse(&b"1.2.3.4444/8".to_vec()), Err(Error::Address));
}

#[test]
fn parse_bad_prefix_variants() {
    assert_eq!(Subnet::parse(&b"10.0.0.0/33".to_vec()), Err(Error::Prefix));
    assert_eq!(Subnet::parse(&b"10.0.0.0/".to_vec()), Err(Error::Prefix));
    assert_eq!(Subnet::parse(&b"10.0.0.0/x".to_vec()), Err(Error::Prefix));
    assert_eq!(Subnet::parse(&b"10.0.0.0/-1".to_vec()), Err(Error::Prefix));
}

#[test]
fn parse_prefix_accepts_sign_and_leading_zeros() {
    let a = Subnet::parse(&b"10.0.0.0/+24".to_vec()).unwrap();
    assert_eq!(a.prefix(), 24);
    let b = Subnet::parse(&b"10.0.0.0/007".to_vec()).unwrap();
    assert_eq!(b.prefix(), 7);
}

#[test]
fn parse_v6_loopback() {
    let s = Subnet::parse(&b"::1/128".to_vec()).unwrap();
    assert_eq!(s.address(), IpAddr::V6(1));
    assert_eq!(s.prefix(), 128);
}

#[test]
fn parse_v6_compressed_forms() {
    let s = Subnet::parse(&b"fd00::/8".to_vec()).unwrap();
    assert_eq!(s.address(), IpAddr::V6(0xfd00 << 112));
    assert_eq!(s.prefix(), 8);
    let t = Subnet::parse(&b"2001:db8::1/64".to_vec()).unwrap();
    assert_eq!(
        t.address(),
        IpAddr::V6((0x2001u128 << 112) | (0x0db8u128 << 96))
    );
    let u = Subnet::parse(&b"::/0".to_vec()).unwrap();
    assert_eq!(u.address(), IpAddr::V6(0));
    assert_eq!(u.prefix(), 0);
    let w = Subnet::parse(&b"1:2:3:4:5:6:7::/112".to_vec()).unwrap();
    assert_eq!(
        w.address(),
        IpAddr::V6(
            (1u128 << 112) | (2 << 96) | (3 << 80) | (4 << 64) | (5 << 48) | (6 << 32)
                | (7 << 16)
        )
    );
}

#[test]
fn parse_v6_full_form_and_case() {
    let a = Subnet::parse(&b"0:0:0:0:0:0:0:1/128".to_vec()).unwrap();
    let b = Subnet::parse(&b"::1/128".to_vec()).unwrap();
    assert_eq!(a, b);
    let c = Subnet::parse(&b"FD00::/8".to_vec()).unwrap();
    let d = Subnet::parse(&b"fd00::/8".to_vec()).unwrap();
    assert_eq!(c, d);
}

#[test]
fn parse_v6_normalizes_host_bits() {
    let s = Subnet::parse(&b"2001:db8::dead:beef/32".to_vec()).unwrap();
    assert_eq!(s.address(), IpAddr::V6(0x2001_0db8u128 << 96));
}

#[test]
fn parse_v6_bad_addresses() {
    assert_eq!(Subnet::parse(&b":::/8".to_vec()), Err(Error::Address));
    assert_eq!(Subnet::parse(&b"1::2::3/8".to_vec()), Err(Error::Address));
    assert_eq!(Subnet::parse(&b"1:2:3/8".to_vec()), Err(Error::Address));
    assert_eq!(Subnet::parse(&b"1:2:3:4:5:6:7:8:9/8".to_vec()), Err(Error::Address));
    assert_eq!(Subnet::parse(&b"12345::/8".to_vec()), Err(Error::Address));
    assert_eq!(Subnet::parse(&b"g::/8".to_vec()), Err(Error::Address));
    assert_eq!(Subnet::parse(&b"1:2:3:4:5:6:7:8::/8".to_vec()), Err(Error::Address));
}

#[test]
fn parse_v6_prefix_respects_family_width() {
    assert_eq!(Subnet::parse(&b"::1/129".to_vec()), Err(Error::Prefix));
    let ok = Subnet::parse(&b"::1/33".to_vec()).unwrap();
    assert_eq!(ok.prefix(), 33);
    // The dotted-quad family still caps at its own width.
    assert_eq!(Subnet::parse(&b"10.0.0.0/33".to_vec()), Err(Error::Prefix));
}

#[test]
fn parse_full_octet_range() {
    let s = Subnet::parse(&b"255.255.255.255/32".to_vec()).unwrap();
    assert_eq!(s.address(), v4(255, 255, 255, 255));
    let z = Subnet::parse(&b"0.0.0.0/0".to_vec()).unwrap();
    assert_eq!(z.address(), v4(0, 0, 0, 0));
    assert_eq!(z.prefix(), 0);
}
