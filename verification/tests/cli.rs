use muffin::addr::{IpAddr, Ipv4Addr, Ipv6Addr};
use muffin::cli::{
    multicast_over_tcp_message, parse_unicast_ipaddr, Cli, Client, Participant, Runtime, Server,
    ServerError, StartError, Transport, UsageErrorKind,
};
use muffin::iface::InterfaceSelector;
use muffin::meter::{Goal, Mode};
use muffin::ssm::SsmError;

fn v4(a: u8, b: u8, c: u8, d: u8) -> IpAddr {
    IpAddr::V4(Ipv4Addr::new(a, b, c, d))
}

fn v6(s0: u16, s6: u16, s7: u16) -> IpAddr {
    IpAddr::V6(Ipv6Addr::new(s0, 0, 0, 0, 0, 0, s6, s7))
}

fn cli(transport: Transport, kind: Participant, iface: Option<&str>) -> Cli {
    Cli {
        transport,
        port: 4747,
        scope: 0,
        buffer_size: 64000,
        backlog: 128,
        ttl: 64,
        multicast_loop: false,
        multicast_iface: iface.map(|name| InterfaceSelector::Name(name.to_string())),
        kind,
    }
}

fn server(listen: IpAddr, sources: Vec<IpAddr>) -> Server {
    Server { listen, duration: None, multicast_source: sources }
}

fn check(listen: IpAddr, sources: Vec<IpAddr>, iface: Option<&str>) -> Result<(), StartError> {
    cli(Transport::Udp, Participant::Server(server(listen, sources)), iface).check()
}

#[test]
fn sources_must_be_unicast() {
    for (addr, shown) in [
        (v4(224, 0, 0, 1), "224.0.0.1"),
        (v4(0, 0, 0, 0), "0.0.0.0"),
        (v4(127, 0, 0, 1), "127.0.0.1"),
        (v6(0xff02, 0, 1), "ff02::1"),
        (v6(0, 0, 0), "::"),
        (v6(0, 0, 1), "::1"),
    ] {
        assert_eq!(
            parse_unicast_ipaddr(Ok(addr), shown),
            Err(format!("must be a unicast address (got `{shown}`)"))
        );
    }
}

#[test]
fn sources_must_be_routable() {
    for (addr, shown) in [
        (v4(255, 255, 255, 255), "255.255.255.255"),
        (v4(169, 254, 1, 1), "169.254.1.1"),
        (v6(0xfe80, 0, 1), "fe80::1"),
    ] {
        assert_eq!(
            parse_unicast_ipaddr(Ok(addr), shown),
            Err(format!(
                "must be a routable source address, not broadcast or link-local (got `{shown}`)"
            ))
        );
    }
}

#[test]
fn other_sources_are_accepted() {
    assert_eq!(parse_unicast_ipaddr(Ok(v4(10, 0, 0, 1)), "10.0.0.1"), Ok(v4(10, 0, 0, 1)));
    assert_eq!(parse_unicast_ipaddr(Ok(v6(0xfd00, 0, 1)), "fd00::1"), Ok(v6(0xfd00, 0, 1)));
    assert_eq!(
        parse_unicast_ipaddr(Err("invalid IP address syntax".to_string()), ""),
        Err("invalid IP address syntax".to_string())
    );
}

#[test]
fn plain_servers_are_fine() {
    assert_eq!(check(v4(0, 0, 0, 0), vec![], None), Ok(()));
    assert_eq!(check(v4(239, 1, 2, 3), vec![], None), Ok(()));
    assert_eq!(check(v6(0xff05, 0, 1), vec![], Some("net0")), Ok(()));
}

#[test]
fn ssm_servers_need_a_usable_group() {
    let error = ServerError::Destination(SsmError::Reserved);
    assert_eq!(
        check(v4(232, 0, 0, 1), vec![v4(10, 0, 0, 1)], Some("net0")),
        Err(StartError::Server(error))
    );
    assert_eq!(error.kind(), UsageErrorKind::ValueValidation);
    assert_eq!(
        error.message("232.0.0.1", ""),
        "232.0.0.1 is in the reserved IPv4 SSM subnet (232.0.0.0/24, RFC 4607)"
    );
}

#[test]
fn ssm_servers_need_sources() {
    assert_eq!(
        check(v4(232, 0, 1, 1), vec![], Some("net0")),
        Err(StartError::Server(ServerError::SourceRequired))
    );
    assert_eq!(
        check(v6(0xff3e, 0x8000, 1), vec![], Some("net0")),
        Err(StartError::Server(ServerError::SourceRequired))
    );
    assert_eq!(ServerError::SourceRequired.kind(), UsageErrorKind::MissingRequiredArgument);
    assert_eq!(
        ServerError::SourceRequired.message("232.0.1.1", ""),
        "`listen` 232.0.1.1 is in the source-specific multicast (SSM) range \
         (232.0.0.0/8, ff3x::/32) but no sources were supplied; an any-source join is \
         undeliverable. Pass `--multicast-source` for an INCLUDE-mode (S, G) join"
    );
}

#[test]
fn sources_need_a_multicast_group() {
    assert_eq!(
        check(v4(10, 0, 0, 2), vec![v4(10, 0, 0, 1)], Some("net0")),
        Err(StartError::Server(ServerError::NotMulticast))
    );
    assert_eq!(ServerError::NotMulticast.kind(), UsageErrorKind::ValueValidation);
    assert_eq!(
        ServerError::NotMulticast.message("10.0.0.2", ""),
        "`--multicast-source` requires `listen` to be a multicast address (got `10.0.0.2`)"
    );
}

#[test]
fn sources_need_the_family_of_the_group() {
    let error = ServerError::FamilyMismatch { source: v6(0xfd00, 0, 1) };
    assert_eq!(
        check(
            v4(239, 1, 2, 3),
            vec![v4(10, 0, 0, 1), v6(0xfd00, 0, 1), v6(0xfd00, 0, 2)],
            None
        ),
        Err(StartError::Server(error))
    );
    assert_eq!(error.kind(), UsageErrorKind::ValueValidation);
    assert_eq!(
        error.message("239.1.2.3", "fd00::1"),
        "`--multicast-source` family must match the `listen` address family \
         (got `fd00::1` vs listen `239.1.2.3`)"
    );
}

#[test]
fn sources_need_an_interface() {
    assert_eq!(
        check(v4(232, 0, 1, 1), vec![v4(10, 0, 0, 1)], None),
        Err(StartError::Server(ServerError::InterfaceRequired))
    );
    assert_eq!(check(v4(232, 0, 1, 1), vec![v4(10, 0, 0, 1)], Some("net0")), Ok(()));
    assert_eq!(ServerError::InterfaceRequired.kind(), UsageErrorKind::MissingRequiredArgument);
    assert_eq!(
        ServerError::InterfaceRequired.message("", ""),
        "`--multicast-source` requires `--multicast-iface` to pin the SSM join to a \
         specific interface"
    );
}

#[test]
fn worker_threads_do_not_measure_by_data() {
    let by = |transport: Transport, mode: Mode| {
        let goal = Goal { mode, duration: 1 };
        let client = Client { server: v4(10, 0, 0, 1), goal, parallel: 1 };
        cli(transport, Participant::Client(client), None)
    };
    assert_eq!(by(Transport::Tcp, Mode::Data).runtime(Runtime::Threads), Runtime::Async);
    assert_eq!(by(Transport::Tcp, Mode::Time).runtime(Runtime::Threads), Runtime::Threads);
    assert_eq!(by(Transport::Tcp, Mode::Time).runtime(Runtime::Async), Runtime::Async);
    assert_eq!(by(Transport::Udp, Mode::Data).runtime(Runtime::Threads), Runtime::Threads);
    let listener = cli(
        Transport::Tcp,
        Participant::Server(server(v4(10, 0, 0, 1), vec![])),
        None,
    );
    assert_eq!(listener.runtime(Runtime::Threads), Runtime::Threads);
}

#[test]
fn tcp_carries_no_multicast() {
    let goal = Goal { mode: Mode::Time, duration: 10 };
    let client = |server| Participant::Client(Client { server, goal, parallel: 1 });
    assert_eq!(
        cli(Transport::Tcp, client(v4(239, 1, 2, 3)), None).check(),
        Err(StartError::MulticastOverTcp)
    );
    assert_eq!(cli(Transport::Tcp, client(v4(10, 0, 0, 1)), None).check(), Ok(()));
    assert_eq!(cli(Transport::Udp, client(v4(239, 1, 2, 3)), None).check(), Ok(()));
    assert_eq!(
        cli(Transport::Tcp, Participant::Server(server(v4(232, 0, 0, 1), vec![])), None).check(),
        Err(StartError::MulticastOverTcp)
    );
    assert_eq!(
        multicast_over_tcp_message(),
        "multicast is only supported with `--transport udp`"
    );
}

#[test]
fn sources_by_family() {
    let mixed = server(
        v4(239, 1, 2, 3),
        vec![v4(10, 0, 0, 1), v6(0xfd00, 0, 1), v4(10, 0, 0, 2)],
    );
    assert_eq!(
        mixed.multicast_source_v4(),
        vec![Ipv4Addr::new(10, 0, 0, 1), Ipv4Addr::new(10, 0, 0, 2)]
    );
    assert_eq!(
        mixed.multicast_source_v6(),
        vec![Ipv6Addr::new(0xfd00, 0, 0, 0, 0, 0, 0, 1)]
    );
}
