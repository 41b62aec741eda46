use muffin::addr::{any_local_addr, make_addr, IpAddr, Ipv4Addr, Ipv6Addr, SocketAddr};

#[test]
fn octets_and_segments_agree() {
    let v6 = Ipv6Addr::new(0x2001, 0xdb8, 1, 2, 3, 4, 5, 0xffff);
    assert_eq!(
        v6.octets(),
        [0x20, 0x01, 0x0d, 0xb8, 0, 1, 0, 2, 0, 3, 0, 4, 0, 5, 0xff, 0xff]
    );
    assert_eq!(v6.segments(), [0x2001, 0xdb8, 1, 2, 3, 4, 5, 0xffff]);
    assert_eq!(Ipv6Addr::from_octets(v6.octets()), v6);

    let v4 = Ipv4Addr::new(10, 0, 0, 1);
    assert_eq!(v4.octets(), [10, 0, 0, 1]);
    assert_eq!(Ipv4Addr::from_octets([10, 0, 0, 1]), v4);
}

#[test]
fn multicast_ranges() {
    assert!(!IpAddr::V4(Ipv4Addr::new(223, 255, 255, 255)).is_multicast());
    assert!(IpAddr::V4(Ipv4Addr::new(224, 0, 0, 0)).is_multicast());
    assert!(IpAddr::V4(Ipv4Addr::new(239, 255, 255, 255)).is_multicast());
    assert!(!IpAddr::V4(Ipv4Addr::new(240, 0, 0, 0)).is_multicast());
    assert!(!IpAddr::V6(Ipv6Addr::new(0xfeff, 0, 0, 0, 0, 0, 0, 1)).is_multicast());
    assert!(IpAddr::V6(Ipv6Addr::new(0xff02, 0, 0, 0, 0, 0, 0, 1)).is_multicast());
}

#[test]
fn special_addresses() {
    assert!(IpAddr::V4(Ipv4Addr::unspecified()).is_unspecified());
    assert!(IpAddr::V6(Ipv6Addr::unspecified()).is_unspecified());
    assert!(!IpAddr::V4(Ipv4Addr::new(0, 0, 0, 1)).is_unspecified());
    assert!(IpAddr::V4(Ipv4Addr::new(127, 1, 2, 3)).is_loopback());
    assert!(IpAddr::V6(Ipv6Addr::new(0, 0, 0, 0, 0, 0, 0, 1)).is_loopback());
    assert!(!IpAddr::V6(Ipv6Addr::unspecified()).is_loopback());
    assert!(IpAddr::V4(Ipv4Addr::new(255, 255, 255, 255)).is_non_routable());
    assert!(IpAddr::V4(Ipv4Addr::new(169, 254, 9, 9)).is_non_routable());
    assert!(!IpAddr::V4(Ipv4Addr::new(169, 253, 9, 9)).is_non_routable());
    assert!(IpAddr::V6(Ipv6Addr::new(0xfe80, 0, 0, 0, 0, 0, 0, 1)).is_non_routable());
    assert!(IpAddr::V6(Ipv6Addr::new(0xfebf, 0, 0, 0, 0, 0, 0, 1)).is_non_routable());
    assert!(!IpAddr::V6(Ipv6Addr::new(0xfec0, 0, 0, 0, 0, 0, 0, 1)).is_non_routable());
}

#[test]
fn groups_that_stay_on_a_link() {
    assert!(Ipv6Addr::new(0xff01, 0, 0, 0, 0, 0, 0, 1).is_interface_or_link_local_group());
    assert!(Ipv6Addr::new(0xff32, 0, 0, 0, 0, 0, 0, 1).is_interface_or_link_local_group());
    assert!(!Ipv6Addr::new(0xff05, 0, 0, 0, 0, 0, 0, 1).is_interface_or_link_local_group());
    assert!(!Ipv6Addr::new(0xfe82, 0, 0, 0, 0, 0, 0, 1).is_interface_or_link_local_group());
}

#[test]
fn socket_addresses() {
    let v4 = Ipv4Addr::new(10, 0, 0, 1);
    let v6 = Ipv6Addr::new(0xfe80, 0, 0, 0, 0, 0, 0, 1);
    assert_eq!(make_addr(IpAddr::V4(v4), 4747, 3), SocketAddr::V4 { v4, port: 4747 });
    assert_eq!(
        make_addr(IpAddr::V6(v6), 4747, 3),
        SocketAddr::V6 { v6, port: 4747, flowinfo: 0, scope: 3 }
    );
    assert_eq!(
        any_local_addr(IpAddr::V4(v4)),
        SocketAddr::V4 { v4: Ipv4Addr::new(0, 0, 0, 0), port: 0 }
    );
    assert_eq!(
        any_local_addr(IpAddr::V6(v6)),
        SocketAddr::V6 { v6: Ipv6Addr::unspecified(), port: 0, flowinfo: 0, scope: 0 }
    );
}
