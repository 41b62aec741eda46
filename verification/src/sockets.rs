//! How sockets are set up: which options are set, where they are bound, and
//! how multicast groups are joined.
use crate::addr::{make_addr, socket_addr, IpAddr, Ipv4Addr, Ipv6Addr, SocketAddr};
use crate::cli::{v4_among, v6_among, Cli, Server};
use vstd::prelude::*;

verus! {

/// How long a receiver with a deadline waits for a datagram before it looks
/// at the clock, in milliseconds.
pub const RECEIVE_TIMEOUT_MS: u64 = 500;

/// One step of setting up a datagram socket.
#[derive(Debug, PartialEq, Eq)]
pub enum SockOp {
    MulticastTtlV4(u8),
    MulticastLoopV4(bool),
    MulticastIfV4(Ipv4Addr),
    TtlV4(u8),
    MulticastHopsV6(u8),
    MulticastLoopV6(bool),
    MulticastIfV6(u32),
    UnicastHopsV6(u8),
    ReuseAddress,
    Bind(SocketAddr),
    /// Join `group` for traffic of any source.
    JoinV4 { group: Ipv4Addr, iface: Ipv4Addr },
    /// Join `group` for traffic of `source`.
    JoinSourceV4 { group: Ipv4Addr, source: Ipv4Addr, iface: Ipv4Addr },
    /// Join `group` for traffic of any source.
    JoinV6 { group: Ipv6Addr, ifindex: u32 },
    /// Join `group` for traffic of all of `sources`, with one source filter.
    JoinSourcesV6 { group: Ipv6Addr, ifindex: u32, sources: Vec<Ipv6Addr> },
    /// Give up on a receive after so many milliseconds.
    ReadTimeout { millis: u64 },
}

/// A step, with the sources of an IPv6 group as a plain sequence.
#[verifier::ext_equal]
pub enum SockStep {
    Plain(SockOp),
    JoinSourcesV6 { group: Ipv6Addr, ifindex: u32, sources: Seq<Ipv6Addr> },
}

impl View for SockOp {
    type V = SockStep;

    open spec fn view(&self) -> SockStep {
        match *self {
            SockOp::JoinSourcesV6 { group, ifindex, sources } => SockStep::JoinSourcesV6 {
                group,
                ifindex,
                sources: sources@,
            },
            op => SockStep::Plain(op),
        }
    }
}

pub open spec fn steps(ops: Seq<SockOp>) -> Seq<SockStep> {
    ops.map_values(|op: SockOp| op@)
}

impl SockOp {
    pub open spec fn spec_context(self) -> Option<Seq<char>> {
        match self {
            SockOp::MulticastTtlV4(_) => Some("set IP_MULTICAST_TTL"@),
            SockOp::MulticastLoopV4(_) => Some("set IP_MULTICAST_LOOP"@),
            SockOp::MulticastIfV4(_) => Some("set IP_MULTICAST_IF"@),
            SockOp::TtlV4(_) => Some("set IP_TTL"@),
            SockOp::MulticastHopsV6(_) => Some("set IPV6_MULTICAST_HOPS"@),
            SockOp::MulticastLoopV6(_) => Some("set IPV6_MULTICAST_LOOP"@),
            SockOp::MulticastIfV6(_) => Some("set IPV6_MULTICAST_IF"@),
            SockOp::UnicastHopsV6(_) => Some("set IPV6_UNICAST_HOPS"@),
            SockOp::ReuseAddress => Some("SO_REUSEADDR"@),
            SockOp::JoinV4 { .. } => Some("IP_ADD_MEMBERSHIP"@),
            SockOp::JoinSourceV4 { .. } => Some("IP_ADD_SOURCE_MEMBERSHIP"@),
            SockOp::JoinV6 { .. } => Some("IPV6_ADD_MEMBERSHIP"@),
            SockOp::JoinSourcesV6 { .. } => Some("setsourcefilter"@),
            SockOp::ReadTimeout { .. } => Some("SO_RCVTIMEO"@),
            SockOp::Bind(_) => None,
        }
    }

    /// What the step is called in an error, if it is called anything.
    pub fn context(&self) -> (label: Option<&'static str>)
        ensures
            match label {
                Some(label) => self.spec_context() == Some(label@),
                None => self.spec_context() is None,
            },
    {
        match self {
            SockOp::MulticastTtlV4(_) => Some("set IP_MULTICAST_TTL"),
            SockOp::MulticastLoopV4(_) => Some("set IP_MULTICAST_LOOP"),
            SockOp::MulticastIfV4(_) => Some("set IP_MULTICAST_IF"),
            SockOp::TtlV4(_) => Some("set IP_TTL"),
            SockOp::MulticastHopsV6(_) => Some("set IPV6_MULTICAST_HOPS"),
            SockOp::MulticastLoopV6(_) => Some("set IPV6_MULTICAST_LOOP"),
            SockOp::MulticastIfV6(_) => Some("set IPV6_MULTICAST_IF"),
            SockOp::UnicastHopsV6(_) => Some("set IPV6_UNICAST_HOPS"),
            SockOp::ReuseAddress => Some("SO_REUSEADDR"),
            SockOp::JoinV4 { .. } => Some("IP_ADD_MEMBERSHIP"),
            SockOp::JoinSourceV4 { .. } => Some("IP_ADD_SOURCE_MEMBERSHIP"),
            SockOp::JoinV6 { .. } => Some("IPV6_ADD_MEMBERSHIP"),
            SockOp::JoinSourcesV6 { .. } => Some("setsourcefilter"),
            SockOp::ReadTimeout { .. } => Some("SO_RCVTIMEO"),
            SockOp::Bind(_) => None,
        }
    }
}

/// What has to be found out about the interface that multicast traffic is
/// pinned to.
#[derive(Clone, Copy, Debug, PartialEq, Eq, Structural)]
pub enum IfaceNeed {
    Nothing,
    V4Address,
    Index,
}

/// What was found out about it.
#[derive(Clone, Copy, Debug, PartialEq, Eq, Structural)]
pub struct PinnedIface {
    pub v4: Option<Ipv4Addr>,
    pub index: Option<u32>,
}

impl PinnedIface {
    /// The address to join on; the system chooses if there is none.
    pub open spec fn v4_or_any(self) -> Ipv4Addr {
        match self.v4 {
            Some(v4) => v4,
            None => Ipv4Addr::spec_unspecified(),
        }
    }

    /// The index to join on; with 0 the system chooses.
    pub open spec fn index_or_any(self) -> u32 {
        match self.index {
            Some(index) => index,
            None => 0,
        }
    }
}

/// What the interface selector has to resolve to for traffic with `target`:
/// the IPv4 address for an IPv4 group and the index for an IPv6 group, if an
/// interface is selected at all.
pub fn iface_need(target: IpAddr, selected: bool) -> (need: IfaceNeed)
    ensures
        need == (if !selected || !target.multicast() {
            IfaceNeed::Nothing
        } else if target is V4 {
            IfaceNeed::V4Address
        } else {
            IfaceNeed::Index
        }),
{
    if !selected || !target.is_multicast() {
        IfaceNeed::Nothing
    } else if target.is_ipv4() {
        IfaceNeed::V4Address
    } else {
        IfaceNeed::Index
    }
}

/// The options of the socket of a datagram client.
pub open spec fn client_ops(
    server: IpAddr,
    ttl: u8,
    multicast_loop: bool,
    iface: PinnedIface,
) -> Seq<SockOp> {
    match server {
        IpAddr::V4(v4) => if v4.multicast() {
            seq![SockOp::MulticastTtlV4(ttl), SockOp::MulticastLoopV4(multicast_loop)]
                + match iface.v4 {
                Some(v4) => seq![SockOp::MulticastIfV4(v4)],
                None => seq![],
            }
        } else {
            seq![SockOp::TtlV4(ttl)]
        },
        IpAddr::V6(v6) => if v6.multicast() {
            seq![SockOp::MulticastHopsV6(ttl), SockOp::MulticastLoopV6(multicast_loop)]
                + if iface.index_or_any() != 0 {
                seq![SockOp::MulticastIfV6(iface.index_or_any())]
            } else {
                seq![]
            }
        } else {
            seq![SockOp::UnicastHopsV6(ttl)]
        },
    }
}

/// Where a datagram client sends to. Multicast traffic goes out on the pinned
/// interface, other traffic in the zone `scope`.
pub open spec fn client_destination(
    server: IpAddr,
    port: u16,
    scope: u32,
    iface: PinnedIface,
) -> SocketAddr {
    socket_addr(
        server,
        port,
        if server.multicast() {
            iface.index_or_any()
        } else {
            scope
        },
    )
}

/// How the socket of a datagram client is set up.
#[derive(Debug)]
pub struct ClientPlan {
    pub ops: Vec<SockOp>,
    pub destination: SocketAddr,
}

/// Plan the socket of a datagram client that sends to `server`.
pub fn udp_client_plan(cli: &Cli, server: IpAddr, iface: PinnedIface) -> (plan: ClientPlan)
    ensures
        plan.ops@ == client_ops(server, cli.ttl, cli.multicast_loop, iface),
        plan.destination == client_destination(server, cli.port, cli.scope, iface),
{
    let mut ops: Vec<SockOp> = Vec::new();
    let multicast: bool = server.is_multicast();
    let index: u32 = iface.index.unwrap_or(0);
    if multicast {
        match server {
            IpAddr::V4(_) => {
                ops.push(SockOp::MulticastTtlV4(cli.ttl));
                ops.push(SockOp::MulticastLoopV4(cli.multicast_loop));
                if let Some(v4) = iface.v4 {
                    ops.push(SockOp::MulticastIfV4(v4));
                }
            },
            IpAddr::V6(_) => {
                ops.push(SockOp::MulticastHopsV6(cli.ttl));
                ops.push(SockOp::MulticastLoopV6(cli.multicast_loop));
                // Index 0 leaves the choice to the system. Setting it
                // explicitly is not portable, so it is left out.
                if index != 0 {
                    ops.push(SockOp::MulticastIfV6(index));
                }
            },
        }
    } else {
        match server {
            IpAddr::V4(_) => ops.push(SockOp::TtlV4(cli.ttl)),
            IpAddr::V6(_) => ops.push(SockOp::UnicastHopsV6(cli.ttl)),
        }
    }
    proof {
        assert(ops@ =~= client_ops(server, cli.ttl, cli.multicast_loop, iface));
    }
    let scope: u32 = if multicast {
        index
    } else {
        cli.scope
    };
    ClientPlan { ops, destination: make_addr(server, cli.port, scope) }
}

/// How an IPv4 group is joined: once for any source, or once for each of
/// `sources`.
pub open spec fn joins_v4(group: Ipv4Addr, iface: Ipv4Addr, sources: Seq<Ipv4Addr>) -> Seq<SockOp> {
    if sources.len() == 0 {
        seq![SockOp::JoinV4 { group, iface }]
    } else {
        sources.map_values(|source: Ipv4Addr| SockOp::JoinSourceV4 { group, source, iface })
    }
}

/// How an IPv6 group is joined: for any source, or for all of `sources` at
/// once.
pub open spec fn joins_v6(group: Ipv6Addr, ifindex: u32, sources: Seq<Ipv6Addr>) -> SockStep {
    if sources.len() == 0 {
        SockStep::Plain(SockOp::JoinV6 { group, ifindex })
    } else {
        SockStep::JoinSourcesV6 { group, ifindex, sources }
    }
}

/// Join the IPv4 `group` on `iface`: for any source if there are no
/// `sources`, and otherwise once for each of them.
pub fn join_v4(group: Ipv4Addr, iface: Ipv4Addr, sources: &[Ipv4Addr]) -> (ops: Vec<SockOp>)
    ensures
        ops@ == joins_v4(group, iface, sources@),
{
    let mut ops: Vec<SockOp> = Vec::new();
    if sources.is_empty() {
        ops.push(SockOp::JoinV4 { group, iface });
        return ops;
    }
    let mut i: usize = 0;
    while i < sources.len()
        invariant
            i <= sources@.len(),
            ops@.len() == i,
            forall|j: int|
                0 <= j < i ==> #[trigger] ops@[j] == (SockOp::JoinSourceV4 {
                    group,
                    source: sources@[j],
                    iface,
                }),
        decreases sources@.len() - i,
    {
        ops.push(SockOp::JoinSourceV4 { group, source: sources[i], iface });
        i = i + 1;
    }
    assert(ops@ =~= joins_v4(group, iface, sources@));
    ops
}

/// Join the IPv6 `group` on the interface `ifindex`: for any source if there
/// are no `sources`, and otherwise for all of them at once.
pub fn join_v6(group: Ipv6Addr, ifindex: u32, sources: &[Ipv6Addr]) -> (op: SockOp)
    ensures
        op@ == joins_v6(group, ifindex, sources@),
{
    if sources.is_empty() {
        SockOp::JoinV6 { group, ifindex }
    } else {
        SockOp::JoinSourcesV6 {
            group,
            ifindex,
            sources: vstd::slice::slice_to_vec(sources),
        }
    }
}

/// The zone in which a datagram server is bound: `scope` for a unicast
/// address, and the pinned interface for a group that stays on an interface
/// or a link.
pub open spec fn bind_scope(listen: IpAddr, scope: u32, iface: PinnedIface) -> u32 {
    match listen {
        IpAddr::V6(v6) if v6.interface_or_link_local_group() => iface.index_or_any(),
        _ => if listen.multicast() {
            0
        } else {
            scope
        },
    }
}

/// How the socket of a datagram server is set up: several receivers may share
/// a group, the socket is bound to the group itself so that it receives
/// nothing else, and then joins it.
pub open spec fn server_ops(
    server: Server,
    port: u16,
    scope: u32,
    iface: PinnedIface,
) -> Seq<SockStep> {
    let sources = server.multicast_source@;
    let share = if server.listen.multicast() {
        seq![SockOp::ReuseAddress]
    } else {
        seq![]
    };
    let bind = SockOp::Bind(
        socket_addr(server.listen, port, bind_scope(server.listen, scope, iface)),
    );
    let join = if !server.listen.multicast() {
        seq![]
    } else {
        match server.listen {
            IpAddr::V4(group) => steps(joins_v4(group, iface.v4_or_any(), v4_among(sources))),
            IpAddr::V6(group) => seq![joins_v6(group, iface.index_or_any(), v6_among(sources))],
        }
    };
    let timeout = if server.duration is Some {
        seq![SockOp::ReadTimeout { millis: RECEIVE_TIMEOUT_MS }]
    } else {
        seq![]
    };
    steps(share.push(bind)) + join + steps(timeout)
}

/// Plan the socket of the datagram server `server`.
pub fn udp_server_plan(cli: &Cli, server: &Server, iface: PinnedIface) -> (ops: Vec<SockOp>)
    ensures
        steps(ops@) == server_ops(*server, cli.port, cli.scope, iface),
{
    let mut ops: Vec<SockOp> = Vec::new();
    let multicast: bool = server.listen.is_multicast();
    let index: u32 = iface.index.unwrap_or(0);
    if multicast {
        ops.push(SockOp::ReuseAddress);
    }
    let local: bool = match server.listen {
        IpAddr::V4(_) => false,
        IpAddr::V6(v6) => v6.is_interface_or_link_local_group(),
    };
    let scope: u32 = if local {
        index
    } else if multicast {
        0
    } else {
        cli.scope
    };
    ops.push(SockOp::Bind(make_addr(server.listen, cli.port, scope)));
    if multicast {
        match server.listen {
            IpAddr::V4(group) => {
                let on = match iface.v4 {
                    Some(v4) => v4,
                    None => Ipv4Addr::unspecified(),
                };
                let mut joins = join_v4(group, on, server.multicast_source_v4().as_slice());
                ops.append(&mut joins);
            },
            IpAddr::V6(group) => ops.push(
                join_v6(group, index, server.multicast_source_v6().as_slice()),
            ),
        }
    }
    if server.duration.is_some() {
        ops.push(SockOp::ReadTimeout { millis: RECEIVE_TIMEOUT_MS });
    }
    proof {
        assert(steps(ops@) =~= server_ops(*server, cli.port, cli.scope, iface));
    }
    ops
}

/// One step of setting up a listener. In an error these steps are not called
/// anything.
#[derive(Clone, Copy, Debug, PartialEq, Eq, Structural)]
pub enum ListenOp {
    ReuseAddress,
    ReusePort,
    Nonblocking,
    Bind(SocketAddr),
    Listen { backlog: i32 },
}

/// How the listener of a worker thread is set up: all of them share one
/// address and port.
pub open spec fn listener_ops(
    listen: IpAddr,
    port: u16,
    scope: u32,
    backlog: i32,
) -> Seq<ListenOp> {
    seq![
        ListenOp::ReuseAddress,
        ListenOp::ReusePort,
        ListenOp::Nonblocking,
        ListenOp::Bind(socket_addr(listen, port, scope)),
        ListenOp::Listen { backlog },
    ]
}

/// Plan the listener of a worker thread.
pub fn make_listener(listen: IpAddr, port: u16, scope: u32, backlog: i32) -> (ops: Vec<ListenOp>)
    ensures
        ops@ == listener_ops(listen, port, scope, backlog),
{
    let mut ops: Vec<ListenOp> = Vec::new();
    ops.push(ListenOp::ReuseAddress);
    ops.push(ListenOp::ReusePort);
    ops.push(ListenOp::Nonblocking);
    ops.push(ListenOp::Bind(make_addr(listen, port, scope)));
    ops.push(ListenOp::Listen { backlog });
    assert(ops@ =~= listener_ops(listen, port, scope, backlog));
    ops
}

/// Whether a step joins a group for traffic of any source.
pub open spec fn any_source(step: SockStep) -> bool {
    step matches SockStep::Plain(op) && (op is JoinV4 || op is JoinV6)
}

/// With settings that make sense, a server of a source-specific group never
/// joins it for any source, which would receive nothing. It names every source:
/// one by one to an IPv4 group, and all of them, in their order, at once to an
/// IPv6 group.
pub proof fn law_ssm_join_names_sources(
    server: Server,
    pinned: bool,
    port: u16,
    scope: u32,
    iface: PinnedIface,
)
    requires
        server.fault(pinned) is None,
        crate::ssm::ssm(server.listen),
    ensures
        forall|i: int|
            0 <= i < server_ops(server, port, scope, iface).len() ==> !any_source(
                #[trigger] server_ops(server, port, scope, iface)[i],
            ),
        match server.listen {
            IpAddr::V4(group) => forall|source: Ipv4Addr|
                #![trigger server.multicast_source@.contains(IpAddr::V4(source))]
                server.multicast_source@.contains(IpAddr::V4(source)) ==> server_ops(
                    server,
                    port,
                    scope,
                    iface,
                ).contains(
                    SockStep::Plain(
                        SockOp::JoinSourceV4 { group, source, iface: iface.v4_or_any() },
                    ),
                ),
            IpAddr::V6(group) => exists|sources: Seq<Ipv6Addr>|
                {
                    &&& #[trigger] sources.len() == server.multicast_source@.len()
                    &&& forall|i: int|
                        0 <= i < sources.len() ==> server.multicast_source@[i] == IpAddr::V6(
                            #[trigger] sources[i],
                        )
                    &&& server_ops(server, port, scope, iface).contains(
                        SockStep::JoinSourcesV6 { group, ifindex: iface.index_or_any(), sources },
                    )
                },
        },
{
    let sources = server.multicast_source@;
    let ops = server_ops(server, port, scope, iface);
    crate::cli::law_no_source_is_dropped(server, pinned);
    crate::cli::law_valid_servers_can_receive(server, pinned);
    match server.listen {
        IpAddr::V4(group) => {
            assert forall|source: Ipv4Addr|
                #![trigger server.multicast_source@.contains(IpAddr::V4(source))]
                sources.contains(IpAddr::V4(source)) implies ops.contains(
                SockStep::Plain(SockOp::JoinSourceV4 { group, source, iface: iface.v4_or_any() }),
            ) by {
                let i = choose|i: int|
                    0 <= i < sources.len() && sources[i] == IpAddr::V4(source);
                assert(v4_among(sources)[i] == source);
                assert(ops[2 + i] == SockStep::Plain(
                    SockOp::JoinSourceV4 { group, source, iface: iface.v4_or_any() },
                ));
            }
        },
        IpAddr::V6(group) => {
            let named = v6_among(sources);
            assert(ops[2] == (SockStep::JoinSourcesV6 {
                group,
                ifindex: iface.index_or_any(),
                sources: named,
            }));
            assert forall|i: int| 0 <= i < named.len() implies sources[i] == IpAddr::V6(
                #[trigger] named[i],
            ) by {
                assert(sources[i] is V6);
            }
            assert(named.len() == sources.len());
        },
    }
}

/// The options of a client's socket. For a group: the time to live, whether to
/// loop back, and the interface if one is pinned (by its address for IPv4, by its
/// index, unless that is 0, for IPv6). For anything else the time to live alone.
pub proof fn law_client_options(server: IpAddr, ttl: u8, multicast_loop: bool, iface: PinnedIface)
    ensures
        ({
            let ops = client_ops(server, ttl, multicast_loop, iface);
            match server {
                IpAddr::V4(_) => if server.multicast() {
                    &&& ops[0] == SockOp::MulticastTtlV4(ttl)
                    &&& ops[1] == SockOp::MulticastLoopV4(multicast_loop)
                    &&& match iface.v4 {
                        Some(v4) => ops.len() == 3 && ops[2] == SockOp::MulticastIfV4(v4),
                        None => ops.len() == 2,
                    }
                } else {
                    ops.len() == 1 && ops[0] == SockOp::TtlV4(ttl)
                },
                IpAddr::V6(_) => if server.multicast() {
                    &&& ops[0] == SockOp::MulticastHopsV6(ttl)
                    &&& ops[1] == SockOp::MulticastLoopV6(multicast_loop)
                    &&& match iface.index {
                        Some(index) => if index != 0 {
                            ops.len() == 3 && ops[2] == SockOp::MulticastIfV6(index)
                        } else {
                            ops.len() == 2
                        },
                        None => ops.len() == 2,
                    }
                } else {
                    ops.len() == 1 && ops[0] == SockOp::UnicastHopsV6(ttl)
                },
            }
        }),
{
}

/// A client sends to the address and port that it was given; to an IPv6 group
/// through the pinned interface, and to any other IPv6 address in the zone that
/// was asked for.
pub proof fn law_client_destination(server: IpAddr, port: u16, scope: u32, iface: PinnedIface)
    ensures
        server matches IpAddr::V4(v4) ==> client_destination(server, port, scope, iface) == (
        SocketAddr::V4 { v4, port }),
        server matches IpAddr::V6(v6) ==> client_destination(server, port, scope, iface) == (
        SocketAddr::V6 {
            v6,
            port,
            flowinfo: 0,
            scope: if v6.multicast() {
                match iface.index {
                    Some(index) => index,
                    None => 0,
                }
            } else {
                scope
            },
        }),
{
}

/// How a server is bound: as the address and port that it was given, of IPv6 in
/// the zone that was asked for, but a group in none unless it stays on an
/// interface or a link: then in that of the pinned interface.
pub open spec fn bound_to(
    listen: IpAddr,
    port: u16,
    scope: u32,
    iface: PinnedIface,
) -> SocketAddr {
    match listen {
        IpAddr::V4(v4) => SocketAddr::V4 { v4, port },
        IpAddr::V6(v6) => SocketAddr::V6 {
            v6,
            port,
            flowinfo: 0,
            scope: if !v6.multicast() {
                scope
            } else if v6.s0 % 16 == 1 || v6.s0 % 16 == 2 {
                match iface.index {
                    Some(index) => index,
                    None => 0,
                }
            } else {
                0
            },
        },
    }
}

/// A server of a group lets others share it, is bound, and then joins the group;
/// any other is only bound. A server with a duration gives up on a receive after
/// half a second, and that is the last step of its setting up.
pub proof fn law_server_is_bound_before_it_joins(
    server: Server,
    port: u16,
    scope: u32,
    iface: PinnedIface,
)
    ensures
        ({
            let ops = server_ops(server, port, scope, iface);
            let bind = SockStep::Plain(SockOp::Bind(bound_to(server.listen, port, scope, iface)));
            let before = if server.listen.multicast() {
                2int
            } else {
                1
            };
            let timeout = if server.duration is Some {
                1int
            } else {
                0
            };
            let joins = if !server.listen.multicast() {
                0int
            } else {
                match server.listen {
                    IpAddr::V4(_) => if v4_among(server.multicast_source@).len() == 0 {
                        1
                    } else {
                        v4_among(server.multicast_source@).len() as int
                    },
                    IpAddr::V6(_) => 1,
                }
            };
            &&& ops.len() == before + joins + timeout
            &&& server.listen.multicast() ==> ops[0] == SockStep::Plain(SockOp::ReuseAddress)
            &&& ops[before - 1] == bind
            &&& server.duration is Some ==> ops[ops.len() - 1] == SockStep::Plain(
                SockOp::ReadTimeout { millis: 500 },
            )
        }),
{
    let sources = server.multicast_source@;
    if let IpAddr::V4(group) = server.listen {
        assert(steps(joins_v4(group, iface.v4_or_any(), v4_among(sources))).len() == joins_v4(
            group,
            iface.v4_or_any(),
            v4_among(sources),
        ).len());
    }
}

/// A server of a group joins it on the pinned interface, or on one that the
/// system chooses. Without sources it joins once, for any source; with sources it
/// joins an IPv4 group once for each of them, in their order, and an IPv6 group
/// once for all of them.
pub proof fn law_server_joins(server: Server, port: u16, scope: u32, iface: PinnedIface, i: int)
    requires
        server.listen.multicast(),
    ensures
        ({
            let ops = server_ops(server, port, scope, iface);
            match server.listen {
                IpAddr::V4(group) => {
                    let sources = v4_among(server.multicast_source@);
                    let on = match iface.v4 {
                        Some(v4) => v4,
                        None => Ipv4Addr { a: 0, b: 0, c: 0, d: 0 },
                    };
                    &&& sources.len() == 0 ==> ops[2] == SockStep::Plain(
                        SockOp::JoinV4 { group, iface: on },
                    )
                    &&& 0 <= i < sources.len() ==> ops[2 + i] == SockStep::Plain(
                        SockOp::JoinSourceV4 { group, source: sources[i], iface: on },
                    )
                },
                IpAddr::V6(group) => {
                    let sources = v6_among(server.multicast_source@);
                    let ifindex = match iface.index {
                        Some(index) => index,
                        None => 0,
                    };
                    &&& sources.len() == 0 ==> ops[2] == SockStep::Plain(
                        SockOp::JoinV6 { group, ifindex },
                    )
                    &&& sources.len() > 0 ==> ops[2] == (SockStep::JoinSourcesV6 {
                        group,
                        ifindex,
                        sources,
                    })
                },
            }
        }),
{
}

/// A listener shares its address and its port, does not block, is bound, and
/// listens, in this order.
pub proof fn law_listener_steps(listen: IpAddr, port: u16, scope: u32, backlog: i32)
    ensures
        ({
            let ops = listener_ops(listen, port, scope, backlog);
            &&& ops.len() == 5
            &&& ops[0] is ReuseAddress && ops[1] is ReusePort && ops[2] is Nonblocking
            &&& ops[3] == ListenOp::Bind(
                match listen {
                    IpAddr::V4(v4) => SocketAddr::V4 { v4, port },
                    IpAddr::V6(v6) => SocketAddr::V6 { v6, port, flowinfo: 0, scope },
                },
            )
            &&& ops[4] == (ListenOp::Listen { backlog })
        }),
{
}

/// A step is called in an error after the option that it sets or the call that it
/// makes, whatever it sets it to; binding alone is not called anything.
pub proof fn law_labels_go_by_the_option(op: SockOp)
    ensures
        op is Bind <==> op.spec_context() is None,
        op is MulticastTtlV4 ==> op.spec_context() == Some("set IP_MULTICAST_TTL"@),
        op is MulticastLoopV4 ==> op.spec_context() == Some("set IP_MULTICAST_LOOP"@),
        op is MulticastIfV4 ==> op.spec_context() == Some("set IP_MULTICAST_IF"@),
        op is TtlV4 ==> op.spec_context() == Some("set IP_TTL"@),
        op is MulticastHopsV6 ==> op.spec_context() == Some("set IPV6_MULTICAST_HOPS"@),
        op is MulticastLoopV6 ==> op.spec_context() == Some("set IPV6_MULTICAST_LOOP"@),
        op is MulticastIfV6 ==> op.spec_context() == Some("set IPV6_MULTICAST_IF"@),
        op is UnicastHopsV6 ==> op.spec_context() == Some("set IPV6_UNICAST_HOPS"@),
        op is ReuseAddress ==> op.spec_context() == Some("SO_REUSEADDR"@),
        op is JoinV4 ==> op.spec_context() == Some("IP_ADD_MEMBERSHIP"@),
        op is JoinSourceV4 ==> op.spec_context() == Some("IP_ADD_SOURCE_MEMBERSHIP"@),
        op is JoinV6 ==> op.spec_context() == Some("IPV6_ADD_MEMBERSHIP"@),
        op is JoinSourcesV6 ==> op.spec_context() == Some("setsourcefilter"@),
        op is ReadTimeout ==> op.spec_context() == Some("SO_RCVTIMEO"@),
{
}

} // verus!
