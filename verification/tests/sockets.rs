use muffin::addr::{IpAddr, Ipv4Addr, Ipv6Addr, SocketAddr};
use muffin::cli::{Cli, Participant, Server, Transport};
use muffin::sockets::{
    iface_need, join_v4, join_v6, make_listener, udp_client_plan, udp_server_plan, IfaceNeed,
    ListenOp, PinnedIface, SockOp,
};

const NOWHERE: PinnedIface = PinnedIface { v4: None, index: None };

fn v6(s0: u16) -> Ipv6Addr {
    Ipv6Addr::new(s0, 0, 0, 0, 0, 0, 0x8000, 1)
}

fn server(listen: IpAddr, sources: Vec<IpAddr>, duration: Option<u64>) -> Server {
    Server { listen, duration, multicast_source: sources }
}

fn cli() -> Cli {
    Cli {
        transport: Transport::Udp,
        port: 4747,
        scope: 9,
        buffer_size: 64000,
        backlog: 128,
        ttl: 64,
        multicast_loop: true,
        multicast_iface: None,
        kind: Participant::Server(server(IpAddr::V4(Ipv4Addr::unspecified()), vec![], None)),
    }
}

#[test]
fn what_the_interface_has_to_resolve_to() {
    let group4 = IpAddr::V4(Ipv4Addr::new(239, 1, 2, 3));
    let group6 = IpAddr::V6(v6(0xff05));
    let unicast = IpAddr::V4(Ipv4Addr::new(10, 0, 0, 1));
    assert_eq!(iface_need(group4, true), IfaceNeed::V4Address);
    assert_eq!(iface_need(group6, true), IfaceNeed::Index);
    assert_eq!(iface_need(group6, false), IfaceNeed::Nothing);
    assert_eq!(iface_need(unicast, true), IfaceNeed::Nothing);
}

#[test]
fn client_of_an_ipv4_server() {
    let v4 = Ipv4Addr::new(10, 0, 0, 1);
    let plan = udp_client_plan(&cli(), IpAddr::V4(v4), NOWHERE);
    assert_eq!(plan.ops, vec![SockOp::TtlV4(64)]);
    assert_eq!(plan.destination, SocketAddr::V4 { v4, port: 4747 });
}

#[test]
fn client_of_an_ipv4_group() {
    let v4 = Ipv4Addr::new(239, 1, 2, 3);
    let mut ops = vec![SockOp::MulticastTtlV4(64), SockOp::MulticastLoopV4(true)];
    assert_eq!(udp_client_plan(&cli(), IpAddr::V4(v4), NOWHERE).ops, ops);
    let iface = Ipv4Addr::new(10, 0, 0, 9);
    let pinned = PinnedIface { v4: Some(iface), index: None };
    ops.push(SockOp::MulticastIfV4(iface));
    assert_eq!(udp_client_plan(&cli(), IpAddr::V4(v4), pinned).ops, ops);
}

#[test]
fn client_of_an_ipv6_server() {
    let plan = udp_client_plan(&cli(), IpAddr::V6(v6(0xfe80)), NOWHERE);
    assert_eq!(plan.ops, vec![SockOp::UnicastHopsV6(64)]);
    assert_eq!(
        plan.destination,
        SocketAddr::V6 { v6: v6(0xfe80), port: 4747, flowinfo: 0, scope: 9 }
    );
}

#[test]
fn client_of_an_ipv6_group() {
    let group = IpAddr::V6(v6(0xff05));
    let unpinned = vec![SockOp::MulticastHopsV6(64), SockOp::MulticastLoopV6(true)];
    assert_eq!(udp_client_plan(&cli(), group, NOWHERE).ops, unpinned);
    // index 0 leaves the choice to the system
    let zero = PinnedIface { v4: None, index: Some(0) };
    assert_eq!(udp_client_plan(&cli(), group, zero).ops, unpinned);

    let pinned = udp_client_plan(&cli(), group, PinnedIface { v4: None, index: Some(3) });
    assert_eq!(
        pinned.ops,
        vec![
            SockOp::MulticastHopsV6(64),
            SockOp::MulticastLoopV6(true),
            SockOp::MulticastIfV6(3)
        ]
    );
    assert_eq!(
        pinned.destination,
        SocketAddr::V6 { v6: v6(0xff05), port: 4747, flowinfo: 0, scope: 3 }
    );
}

#[test]
fn joins() {
    let group = Ipv4Addr::new(232, 0, 1, 1);
    let iface = Ipv4Addr::new(10, 0, 0, 9);
    let a = Ipv4Addr::new(10, 0, 0, 1);
    let b = Ipv4Addr::new(10, 0, 0, 2);
    assert_eq!(join_v4(group, iface, &[]), vec![SockOp::JoinV4 { group, iface }]);
    assert_eq!(
        join_v4(group, iface, &[a, b]),
        vec![
            SockOp::JoinSourceV4 { group, source: a, iface },
            SockOp::JoinSourceV4 { group, source: b, iface }
        ]
    );
    let group = v6(0xff3e);
    assert_eq!(join_v6(group, 4, &[]), SockOp::JoinV6 { group, ifindex: 4 });
    assert_eq!(
        join_v6(group, 4, &[v6(0xfd00), v6(0xfd01)]),
        SockOp::JoinSourcesV6 { group, ifindex: 4, sources: vec![v6(0xfd00), v6(0xfd01)] }
    );
}

#[test]
fn unicast_servers() {
    let v4 = Ipv4Addr::unspecified();
    let plan = udp_server_plan(&cli(), &server(IpAddr::V4(v4), vec![], None), NOWHERE);
    assert_eq!(plan, vec![SockOp::Bind(SocketAddr::V4 { v4, port: 4747 })]);

    let timed = udp_server_plan(&cli(), &server(IpAddr::V6(v6(0xfe80)), vec![], Some(3)), NOWHERE);
    assert_eq!(
        timed,
        vec![
            SockOp::Bind(SocketAddr::V6 { v6: v6(0xfe80), port: 4747, flowinfo: 0, scope: 9 }),
            SockOp::ReadTimeout { millis: 500 }
        ]
    );
}

#[test]
fn ipv4_group_server() {
    let group = Ipv4Addr::new(239, 1, 2, 3);
    let any = udp_server_plan(&cli(), &server(IpAddr::V4(group), vec![], None), NOWHERE);
    assert_eq!(
        any,
        vec![
            SockOp::ReuseAddress,
            SockOp::Bind(SocketAddr::V4 { v4: group, port: 4747 }),
            SockOp::JoinV4 { group, iface: Ipv4Addr::unspecified() }
        ]
    );

    let source = Ipv4Addr::new(10, 0, 0, 1);
    let iface = Ipv4Addr::new(10, 0, 0, 9);
    let pinned = PinnedIface { v4: Some(iface), index: None };
    let named = udp_server_plan(
        &cli(),
        &server(IpAddr::V4(group), vec![IpAddr::V4(source)], Some(1)),
        pinned,
    );
    assert_eq!(
        named,
        vec![
            SockOp::ReuseAddress,
            SockOp::Bind(SocketAddr::V4 { v4: group, port: 4747 }),
            SockOp::JoinSourceV4 { group, source, iface },
            SockOp::ReadTimeout { millis: 500 }
        ]
    );
}

#[test]
fn ipv6_group_server() {
    let pinned = PinnedIface { v4: None, index: Some(3) };
    // a link-local group is bound in the zone of the interface, a wider one
    // in none
    for (group, scope) in [(v6(0xff02), 3), (v6(0xff01), 3), (v6(0xff05), 0)] {
        let plan = udp_server_plan(&cli(), &server(IpAddr::V6(group), vec![], None), pinned);
        assert_eq!(
            plan,
            vec![
                SockOp::ReuseAddress,
                SockOp::Bind(SocketAddr::V6 { v6: group, port: 4747, flowinfo: 0, scope }),
                SockOp::JoinV6 { group, ifindex: 3 }
            ]
        );
    }

    let group = v6(0xff3e);
    let sources = vec![IpAddr::V6(v6(0xfd00)), IpAddr::V6(v6(0xfd01))];
    let plan = udp_server_plan(&cli(), &server(IpAddr::V6(group), sources, None), pinned);
    assert_eq!(
        plan,
        vec![
            SockOp::ReuseAddress,
            SockOp::Bind(SocketAddr::V6 { v6: group, port: 4747, flowinfo: 0, scope: 0 }),
            SockOp::JoinSourcesV6 { group, ifindex: 3, sources: vec![v6(0xfd00), v6(0xfd01)] }
        ]
    );
}

#[test]
fn listeners_share_their_port() {
    let v4 = Ipv4Addr::unspecified();
    assert_eq!(
        make_listener(IpAddr::V4(v4), 4747, 0, 128),
        vec![
            ListenOp::ReuseAddress,
            ListenOp::ReusePort,
            ListenOp::Nonblocking,
            ListenOp::Bind(SocketAddr::V4 { v4, port: 4747 }),
            ListenOp::Listen { backlog: 128 }
        ]
    );
}

#[test]
fn steps_have_names() {
    let group = v6(0xff3e);
    let v4 = Ipv4Addr::unspecified();
    assert_eq!(SockOp::MulticastTtlV4(1).context(), Some("set IP_MULTICAST_TTL"));
    assert_eq!(SockOp::MulticastLoopV4(true).context(), Some("set IP_MULTICAST_LOOP"));
    assert_eq!(SockOp::MulticastIfV4(v4).context(), Some("set IP_MULTICAST_IF"));
    assert_eq!(SockOp::TtlV4(1).context(), Some("set IP_TTL"));
    assert_eq!(SockOp::MulticastHopsV6(1).context(), Some("set IPV6_MULTICAST_HOPS"));
    assert_eq!(SockOp::MulticastLoopV6(true).context(), Some("set IPV6_MULTICAST_LOOP"));
    assert_eq!(SockOp::MulticastIfV6(1).context(), Some("set IPV6_MULTICAST_IF"));
    assert_eq!(SockOp::UnicastHopsV6(1).context(), Some("set IPV6_UNICAST_HOPS"));
    assert_eq!(SockOp::ReuseAddress.context(), Some("SO_REUSEADDR"));
    assert_eq!(
        SockOp::JoinV4 { group: v4, iface: v4 }.context(),
        Some("IP_ADD_MEMBERSHIP")
    );
    assert_eq!(
        SockOp::JoinSourceV4 { group: v4, source: v4, iface: v4 }.context(),
        Some("IP_ADD_SOURCE_MEMBERSHIP")
    );
    assert_eq!(SockOp::JoinV6 { group, ifindex: 1 }.context(), Some("IPV6_ADD_MEMBERSHIP"));
    assert_eq!(
        SockOp::JoinSourcesV6 { group, ifindex: 1, sources: vec![group] }.context(),
        Some("setsourcefilter")
    );
    assert_eq!(SockOp::ReadTimeout { millis: 1 }.context(), Some("SO_RCVTIMEO"));
    assert_eq!(SockOp::Bind(SocketAddr::V4 { v4, port: 1 }).context(), None);
}
