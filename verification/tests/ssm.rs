use muffin::addr::{IpAddr, Ipv4Addr, Ipv6Addr};
use muffin::ssm::{
    is_ssm_multicast, join_ssm_v6, validate_ssm_destination, SsmError, MCAST_INCLUDE,
};

fn v4(a: u8, b: u8, c: u8, d: u8) -> IpAddr {
    IpAddr::V4(Ipv4Addr::new(a, b, c, d))
}

/// `s0:s1:s2::s6:s7`
fn v6(s0: u16, s1: u16, s2: u16, s6: u16, s7: u16) -> IpAddr {
    IpAddr::V6(Ipv6Addr::new(s0, s1, s2, 0, 0, 0, s6, s7))
}

#[test]
fn ssm_classification_matches_rfc4607_ranges() {
    // IPv4: only 232.0.0.0/8 is SSM. The adjacent ASM and link-local
    // ranges are not.
    assert!(is_ssm_multicast(v4(232, 0, 0, 1)), "232.0.0.1");
    assert!(is_ssm_multicast(v4(232, 255, 255, 255)), "232.255.255.255");
    assert!(!is_ssm_multicast(v4(231, 255, 255, 255)), "231.255.255.255");
    assert!(!is_ssm_multicast(v4(233, 0, 0, 1)), "233.0.0.1");
    assert!(!is_ssm_multicast(v4(239, 1, 2, 3)), "239.1.2.3");
    assert!(!is_ssm_multicast(v4(224, 0, 0, 1)), "224.0.0.1");

    // IPv6: ff3x::/32 is SSM at every scope. Other multicast flag/scope
    // combinations and the ASM gaps inside ff30::/12 are not.
    assert!(is_ssm_multicast(v6(0xff3e, 0, 0, 0, 1)), "ff3e::1");
    assert!(is_ssm_multicast(v6(0xff35, 0, 0, 0, 0x1234)), "ff35::1234");
    // RFC 4607 reserves the full /32 for possible future use of the
    // network-prefix field.
    assert!(is_ssm_multicast(v6(0xff3e, 0, 0x1234, 0, 1)), "ff3e:0:1234::1");
    assert!(!is_ssm_multicast(v6(0xff3e, 0x20, 0x1234, 0, 1)), "ff3e:20:1234::1");
    assert!(!is_ssm_multicast(v6(0xff0e, 0, 0, 0, 1)), "ff0e::1");
    assert!(!is_ssm_multicast(v6(0xff02, 0, 0, 0, 1)), "ff02::1");
}

#[test]
fn ssm_destination_validation_matches_control_plane_rules() {
    // IPv4: the reserved first /24 (RFC 4607 section 4.3) is unusable, the
    // rest of 232/8 is fine.
    assert!(validate_ssm_destination(v4(232, 0, 0, 1)).is_err(), "232.0.0.1");
    assert!(validate_ssm_destination(v4(232, 0, 1, 1)).is_ok(), "232.0.1.1");

    // IPv6: only ff3x::/96 group IDs of 0x80000000 and above are
    // dynamically allocatable.
    assert!(validate_ssm_destination(v6(0xff3e, 0, 0, 0x8000, 1)).is_ok(), "ff3e::8000:1");
    assert!(validate_ssm_destination(v6(0xff3e, 0, 0, 0, 1)).is_err(), "ff3e::1");
    assert!(validate_ssm_destination(v6(0xff3e, 0, 0, 0x4000, 1)).is_err(), "ff3e::4000:1");
    assert!(
        validate_ssm_destination(v6(0xff3e, 0, 0x1234, 0x8000, 1)).is_err(),
        "ff3e:0:1234::8000:1"
    );

    // IPv6: unusable and unassigned scope nibbles are rejected even
    // with allocatable group IDs, usable scopes pass.
    for (scoped, s0) in [
        ("ff31::8000:1", 0xff31),
        ("ff32::8000:1", 0xff32),
        ("ff33::8000:1", 0xff33),
        ("ff36::8000:1", 0xff36),
        ("ff3d::8000:1", 0xff3d),
        ("ff3f::8000:1", 0xff3f),
    ] {
        assert!(
            validate_ssm_destination(v6(s0, 0, 0, 0x8000, 1)).is_err(),
            "{scoped} should be rejected for its scope"
        );
    }
    assert!(validate_ssm_destination(v6(0xff35, 0, 0, 0x8000, 1)).is_ok(), "ff35::8000:1");
}

#[test]
fn ssm_errors_tell_what_is_wrong() {
    let reserved = validate_ssm_destination(v4(232, 0, 0, 1)).unwrap_err();
    assert_eq!(reserved, SsmError::Reserved);
    assert_eq!(
        reserved.message("232.0.0.1"),
        "232.0.0.1 is in the reserved IPv4 SSM subnet (232.0.0.0/24, RFC 4607)"
    );

    let scope = validate_ssm_destination(v6(0xff3d, 0, 0, 0x8000, 1)).unwrap_err();
    assert_eq!(scope, SsmError::UnusableScope { scope: 0xd });
    assert_eq!(
        scope.message("ff3d::8000:1"),
        "ff3d::8000:1 has an unusable multicast scope nibble (d); usable scopes are \
         admin-local (4), site-local (5), organization-local (8), and global (e)"
    );

    let low = validate_ssm_destination(v6(0xff3e, 0, 0, 0x7fff, 0xffff)).unwrap_err();
    assert_eq!(low, SsmError::NotAllocatable);
    assert_eq!(
        low.message("ff3e::7fff:ffff"),
        "ff3e::7fff:ffff is not a dynamically allocatable IPv6 SSM address \
         (ff3x::8000:0 through ff3x::ffff:ffff per RFC 4607)"
    );
}

#[test]
fn ssm_scopes_are_checked_before_group_ids() {
    let both = validate_ssm_destination(v6(0xff32, 0, 0, 0, 1)).unwrap_err();
    assert_eq!(both, SsmError::UnusableScope { scope: 2 });
}

#[test]
fn ssm_usable_scopes_at_the_edge_of_the_range() {
    for s0 in [0xff34, 0xff35, 0xff38, 0xff3e] {
        assert_eq!(validate_ssm_destination(v6(s0, 0, 0, 0x8000, 0)), Ok(()));
        assert_eq!(validate_ssm_destination(v6(s0, 0, 0, 0xffff, 0xffff)), Ok(()));
    }
}

#[test]
fn source_filter_lists_every_source() {
    let group = Ipv6Addr::new(0xff3e, 0, 0, 0, 0, 0, 0x8000, 1);
    let sources = [
        Ipv6Addr::new(0xfd00, 0, 0, 0, 0, 0, 0, 1),
        Ipv6Addr::new(0xfd00, 0, 0, 0, 0, 0, 0, 2),
    ];
    let filter = join_ssm_v6(group, &sources, 7);
    assert_eq!(filter.interface, 7);
    assert_eq!(filter.mode, MCAST_INCLUDE);
    assert_eq!(filter.group.addr, [0xff, 0x3e, 0, 0, 0, 0, 0, 0, 0, 0, 0, 0, 0x80, 0, 0, 1]);
    assert_eq!((filter.group.port, filter.group.flowinfo, filter.group.scope_id), (0, 0, 0));
    assert_eq!(filter.sources.len(), 2);
    assert_eq!(filter.sources[1].addr, [0xfd, 0, 0, 0, 0, 0, 0, 0, 0, 0, 0, 0, 0, 0, 0, 2]);
}
