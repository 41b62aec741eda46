//! What the user asks for, and whether it makes sense.
use crate::addr::{IpAddr, Ipv4Addr, Ipv6Addr};
use crate::iface::InterfaceSelector;
use crate::meter::{Goal, Mode};
use crate::ssm::{is_ssm_multicast, ssm, ssm_destination_error, validate_ssm_destination, SsmError};
use crate::text::quoted;
use vstd::prelude::*;

verus! {

#[derive(Clone, Copy, Debug, PartialEq, Eq, Structural)]
pub enum Transport {
    Tcp,
    Udp,
}

/// What drives the sockets.
#[derive(Clone, Copy, Debug, PartialEq, Eq, Structural)]
pub enum Runtime {
    Threads,
    Async,
}

/// The settings of one run of the program.
#[derive(Debug)]
pub struct Cli {
    pub transport: Transport,
    pub port: u16,
    /// Zone index for IPv6 unicast targets.
    pub scope: u32,
    /// How big an individual send buffer is, in bytes.
    pub buffer_size: usize,
    /// How big of a TCP backlog to keep.
    pub backlog: i32,
    /// Time to live, or hop limit, of outgoing datagrams.
    pub ttl: u8,
    /// Whether a sender of multicast traffic on this machine is heard by
    /// receivers on this machine.
    pub multicast_loop: bool,
    /// Interface to pin multicast traffic to.
    pub multicast_iface: Option<InterfaceSelector>,
    pub kind: Participant,
}

#[derive(Debug)]
pub enum Participant {
    Client(Client),
    Server(Server),
}

#[derive(Clone, Copy, Debug, PartialEq, Eq, Structural)]
pub struct Client {
    /// Address of the server, or multicast group to send to.
    pub server: IpAddr,
    pub goal: Goal,
    /// How many streams to send side by side.
    pub parallel: usize,
}

#[derive(Debug)]
pub struct Server {
    /// Address to listen on, or multicast group to join.
    pub listen: IpAddr,
    /// How many seconds a datagram receiver runs.
    pub duration: Option<u64>,
    /// The sources whose traffic is received, if not that of any source.
    pub multicast_source: Vec<IpAddr>,
}

/// How an error in the settings is classed.
#[derive(Clone, Copy, Debug, PartialEq, Eq, Structural)]
pub enum UsageErrorKind {
    ValueValidation,
    MissingRequiredArgument,
}

/// What is wrong with the settings of a server.
#[derive(Clone, Copy, Debug, PartialEq, Eq, Structural)]
pub enum ServerError {
    /// The source-specific group is one that is never forwarded.
    Destination(SsmError),
    /// A source-specific group without sources.
    SourceRequired,
    /// Sources, but no multicast group.
    NotMulticast,
    /// A source of the other address family.
    FamilyMismatch { source: IpAddr },
    /// Sources, but no interface to join on.
    InterfaceRequired,
}

/// Why the program does not start.
#[derive(Clone, Copy, Debug, PartialEq, Eq, Structural)]
pub enum StartError {
    /// TCP cannot carry multicast.
    MulticastOverTcp,
    Server(ServerError),
}

/// The first of `sources` whose family is not that of `listen`.
pub open spec fn first_mismatch(sources: Seq<IpAddr>, listen: IpAddr) -> Option<IpAddr>
    decreases sources.len(),
{
    if sources.len() == 0 {
        None
    } else if sources[0] is V4 != listen is V4 {
        Some(sources[0])
    } else {
        first_mismatch(sources.drop_first(), listen)
    }
}

/// The IPv4 addresses among `sources`.
pub open spec fn v4_among(sources: Seq<IpAddr>) -> Seq<Ipv4Addr>
    decreases sources.len(),
{
    if sources.len() == 0 {
        Seq::empty()
    } else {
        match sources.last() {
            IpAddr::V4(v4) => v4_among(sources.drop_last()).push(v4),
            IpAddr::V6(_) => v4_among(sources.drop_last()),
        }
    }
}

/// The IPv6 addresses among `sources`.
pub open spec fn v6_among(sources: Seq<IpAddr>) -> Seq<Ipv6Addr>
    decreases sources.len(),
{
    if sources.len() == 0 {
        Seq::empty()
    } else {
        match sources.last() {
            IpAddr::V6(v6) => v6_among(sources.drop_last()).push(v6),
            IpAddr::V4(_) => v6_among(sources.drop_last()),
        }
    }
}

/// Whether `addr` cannot be the source of multicast traffic, and the words
/// for it.
pub open spec fn source_fault(addr: IpAddr, shown: Seq<char>) -> Option<Seq<char>> {
    if addr.multicast() || addr.unspecified() || addr.loopback() {
        Some("must be a unicast address (got `"@ + shown + "`)"@)
    } else if addr.non_routable() {
        Some(
            "must be a routable source address, not broadcast or link-local (got `"@ + shown
                + "`)"@,
        )
    } else {
        None
    }
}

/// Accept what was read as an address if it can be the source of multicast
/// traffic. `shown` is the address as text.
///
/// Addresses that are not unicast (multicast, unspecified, loopback) or not
/// routable (broadcast, link-local) are turned down here, so that a mistake
/// surfaces as an error in the settings and not as one of the system's after
/// the sockets are set up.
pub fn parse_unicast_ipaddr(parsed: Result<IpAddr, String>, shown: &str) -> (source: Result<
    IpAddr,
    String,
>)
    ensures
        match (parsed, source) {
            (Err(error), Ok(_)) => false,
            (Err(error), Err(text)) => text@ == error@,
            (Ok(addr), Ok(accepted)) => accepted == addr && source_fault(addr, shown@) is None,
            (Ok(addr), Err(text)) => source_fault(addr, shown@) == Some(text@),
        },
{
    let addr = match parsed {
        Ok(addr) => addr,
        Err(error) => {
            return Err(error);
        },
    };
    if addr.is_multicast() || addr.is_unspecified() || addr.is_loopback() {
        return Err(quoted("must be a unicast address (got `", shown, "`)"));
    }
    if addr.is_non_routable() {
        return Err(
            quoted(
                "must be a routable source address, not broadcast or link-local (got `",
                shown,
                "`)",
            ),
        );
    }
    Ok(addr)
}

impl Server {
    /// What is wrong with the settings, if anything is. `pinned` says whether
    /// an interface was selected.
    pub open spec fn fault(self, pinned: bool) -> Option<ServerError> {
        let sources = self.multicast_source@;
        match ssm_destination_error(self.listen) {
            Some(error) if ssm(self.listen) => Some(ServerError::Destination(error)),
            _ => if sources.len() == 0 {
                if ssm(self.listen) {
                    Some(ServerError::SourceRequired)
                } else {
                    None
                }
            } else if !self.listen.multicast() {
                Some(ServerError::NotMulticast)
            } else {
                match first_mismatch(sources, self.listen) {
                    Some(source) => Some(ServerError::FamilyMismatch { source }),
                    None => if pinned {
                        None
                    } else {
                        Some(ServerError::InterfaceRequired)
                    },
                }
            },
        }
    }

    /// Whether the settings of the server make sense.
    ///
    /// A source-specific group must be one that can be forwarded, and needs
    /// sources: joined for any source, it would receive nothing, silently.
    /// Sources need a multicast group, of their own family, and an interface
    /// to join on: left to the system, the join may land on an interface that
    /// the sources do not reach.
    pub fn validate(&self, cli: &Cli) -> (verdict: Result<(), ServerError>)
        ensures
            verdict is Ok <==> self.fault(cli.multicast_iface is Some) is None,
            verdict matches Err(error) ==> self.fault(cli.multicast_iface is Some) == Some(error)
                && error.wf(),
    {
        let is_ssm: bool = is_ssm_multicast(self.listen);
        if is_ssm {
            if let Err(error) = validate_ssm_destination(self.listen) {
                return Err(ServerError::Destination(error));
            }
        }
        if self.multicast_source.is_empty() {
            if is_ssm {
                return Err(ServerError::SourceRequired);
            }
            return Ok(());
        }
        if !self.listen.is_multicast() {
            return Err(ServerError::NotMulticast);
        }
        let sources = &self.multicast_source;
        let mut i: usize = 0;
        assert(sources@.skip(0) =~= sources@);
        while i < sources.len()
            invariant
                i <= sources@.len(),
                *sources == self.multicast_source,
                sources@.len() > 0,
                self.listen.multicast(),
                ssm(self.listen) ==> ssm_destination_error(self.listen) is None,
                first_mismatch(sources@.skip(i as int), self.listen) == first_mismatch(
                    sources@,
                    self.listen,
                ),
            decreases sources@.len() - i,
        {
            assert(sources@.skip(i as int).drop_first() =~= sources@.skip(i + 1));
            let source = sources[i];
            if source.is_ipv4() != self.listen.is_ipv4() {
                return Err(ServerError::FamilyMismatch { source });
            }
            i = i + 1;
        }
        if cli.multicast_iface.is_none() {
            return Err(ServerError::InterfaceRequired);
        }
        Ok(())
    }

    /// The IPv4 sources. `validate` sees to it that these are all of the
    /// sources of an IPv4 group.
    pub fn multicast_source_v4(&self) -> (sources: Vec<Ipv4Addr>)
        ensures
            sources@ == v4_among(self.multicast_source@),
    {
        let all = &self.multicast_source;
        let mut sources: Vec<Ipv4Addr> = Vec::new();
        let mut i: usize = 0;
        assert(all@.take(0) =~= Seq::empty());
        while i < all.len()
            invariant
                i <= all@.len(),
                sources@ == v4_among(all@.take(i as int)),
            decreases all@.len() - i,
        {
            assert(all@.take(i + 1).drop_last() =~= all@.take(i as int));
            if let IpAddr::V4(v4) = all[i] {
                sources.push(v4);
            }
            i = i + 1;
        }
        assert(all@.take(i as int) =~= all@);
        sources
    }

    /// The IPv6 sources. `validate` sees to it that these are all of the
    /// sources of an IPv6 group.
    pub fn multicast_source_v6(&self) -> (sources: Vec<Ipv6Addr>)
        ensures
            sources@ == v6_among(self.multicast_source@),
    {
        let all = &self.multicast_source;
        let mut sources: Vec<Ipv6Addr> = Vec::new();
        let mut i: usize = 0;
        assert(all@.take(0) =~= Seq::empty());
        while i < all.len()
            invariant
                i <= all@.len(),
                sources@ == v6_among(all@.take(i as int)),
            decreases all@.len() - i,
        {
            assert(all@.take(i + 1).drop_last() =~= all@.take(i as int));
            if let IpAddr::V6(v6) = all[i] {
                sources.push(v6);
            }
            i = i + 1;
        }
        assert(all@.take(i as int) =~= all@);
        sources
    }
}

impl ServerError {
    pub open spec fn wf(self) -> bool {
        self matches ServerError::Destination(error) ==> error.wf()
    }

    /// The error in words. `listen` and `source` are the address to listen on
    /// and the source at fault, as text.
    pub open spec fn text(self, listen: Seq<char>, source: Seq<char>) -> Seq<char> {
        match self {
            ServerError::Destination(error) => error.text(listen),
            ServerError::SourceRequired => "`listen` "@ + listen
                + " is in the source-specific multicast (SSM) range (232.0.0.0/8, ff3x::/32) but no sources were supplied; an any-source join is undeliverable. Pass `--multicast-source` for an INCLUDE-mode (S, G) join"@,
            ServerError::NotMulticast =>
            "`--multicast-source` requires `listen` to be a multicast address (got `"@ + listen
                + "`)"@,
            ServerError::FamilyMismatch { .. } =>
            "`--multicast-source` family must match the `listen` address family (got `"@ + source
                + "` vs listen `"@ + listen + "`)"@,
            ServerError::InterfaceRequired =>
            "`--multicast-source` requires `--multicast-iface` to pin the SSM join to a specific interface"@,
        }
    }

    /// How the error is classed: something is missing, or something is wrong.
    pub fn kind(&self) -> (kind: UsageErrorKind)
        ensures
            kind == (if self is SourceRequired || self is InterfaceRequired {
                UsageErrorKind::MissingRequiredArgument
            } else {
                UsageErrorKind::ValueValidation
            }),
    {
        match *self {
            ServerError::SourceRequired
            | ServerError::InterfaceRequired => UsageErrorKind::MissingRequiredArgument,
            _ => UsageErrorKind::ValueValidation,
        }
    }

    /// The error in words. `listen` and `source` are the address to listen on
    /// and the source at fault, as text.
    pub fn message(&self, listen: &str, source: &str) -> (text: String)
        requires
            self.wf(),
        ensures
            text@ == self.text(listen@, source@),
    {
        match *self {
            ServerError::Destination(error) => error.message(listen),
            ServerError::SourceRequired => quoted(
                "`listen` ",
                listen,
                " is in the source-specific multicast (SSM) range (232.0.0.0/8, ff3x::/32) but no sources were supplied; an any-source join is undeliverable. Pass `--multicast-source` for an INCLUDE-mode (S, G) join",
            ),
            ServerError::NotMulticast => quoted(
                "`--multicast-source` requires `listen` to be a multicast address (got `",
                listen,
                "`)",
            ),
            ServerError::FamilyMismatch { .. } => {
                let mut text = quoted(
                    "`--multicast-source` family must match the `listen` address family (got `",
                    source,
                    "` vs listen `",
                );
                text.append(listen);
                text.append("`)");
                text
            },
            ServerError::InterfaceRequired =>
            "`--multicast-source` requires `--multicast-iface` to pin the SSM join to a specific interface".to_owned(),
        }
    }
}

impl Cli {
    /// The address that the run is about.
    pub open spec fn target(self) -> IpAddr {
        match self.kind {
            Participant::Client(client) => client.server,
            Participant::Server(server) => server.listen,
        }
    }

    /// Why the program does not start, if it does not.
    pub open spec fn start_fault(self) -> Option<StartError> {
        if self.transport is Tcp && self.target().multicast() {
            Some(StartError::MulticastOverTcp)
        } else {
            match self.kind {
                Participant::Client(_) => None,
                Participant::Server(server) => match server.fault(self.multicast_iface is Some) {
                    Some(error) => Some(StartError::Server(error)),
                    None => None,
                },
            }
        }
    }

    /// Whether the program can start with these settings.
    pub fn check(&self) -> (verdict: Result<(), StartError>)
        ensures
            verdict is Ok <==> self.start_fault() is None,
            verdict matches Err(error) ==> self.start_fault() == Some(error) && (
            error matches StartError::Server(fault) ==> fault.wf()),
    {
        if self.transport == Transport::Tcp {
            let multicast: bool = match &self.kind {
                Participant::Client(client) => client.server.is_multicast(),
                Participant::Server(server) => server.listen.is_multicast(),
            };
            if multicast {
                return Err(StartError::MulticastOverTcp);
            }
        }
        if let Participant::Server(server) = &self.kind {
            if let Err(error) = server.validate(self) {
                return Err(StartError::Server(error));
            }
        }
        Ok(())
    }
}

impl Cli {
    /// Whether this is a client whose run is measured in data.
    pub open spec fn client_by_data(self) -> bool {
        self.kind matches Participant::Client(client) && client.goal.mode is Data
    }

    /// What drives the sockets where `wanted` was asked for. The worker
    /// threads of a TCP client measure by time alone, so that one that is
    /// measured in data runs asynchronously.
    pub fn runtime(&self, wanted: Runtime) -> (runtime: Runtime)
        ensures
            runtime == (if self.transport is Tcp && self.client_by_data() {
                Runtime::Async
            } else {
                wanted
            }),
            self.kind matches Participant::Client(client) ==> (client.goal.mode is Data
                && self.transport is Tcp ==> runtime is Async) && (client.goal.mode is Time
                ==> runtime == wanted),
            self.kind is Server || self.transport is Udp ==> runtime == wanted,
    {
        let by_data: bool = match &self.kind {
            Participant::Client(client) => client.goal.mode == Mode::Data,
            Participant::Server(_) => false,
        };
        if self.transport == Transport::Tcp && by_data {
            Runtime::Async
        } else {
            wanted
        }
    }
}

/// What is said when multicast is asked for over TCP.
pub fn multicast_over_tcp_message() -> (text: String)
    ensures
        text@ == "multicast is only supported with `--transport udp`"@,
{
    "multicast is only supported with `--transport udp`".to_owned()
}

proof fn lemma_no_mismatch(sources: Seq<IpAddr>, listen: IpAddr)
    requires
        first_mismatch(sources, listen) is None,
    ensures
        forall|i: int|
            0 <= i < sources.len() ==> (#[trigger] sources[i] is V4) == (listen is V4),
    decreases sources.len(),
{
    if sources.len() > 0 {
        let rest = sources.drop_first();
        lemma_no_mismatch(rest, listen);
        assert forall|i: int| 0 <= i < sources.len() implies (#[trigger] sources[i] is V4) == (
        listen is V4) by {
            if i > 0 {
                assert(rest[i - 1] == sources[i]);
            }
        }
    }
}

proof fn lemma_all_v4(sources: Seq<IpAddr>)
    requires
        forall|i: int| 0 <= i < sources.len() ==> #[trigger] sources[i] is V4,
    ensures
        v4_among(sources).len() == sources.len(),
        forall|i: int|
            0 <= i < sources.len() ==> #[trigger] sources[i] == IpAddr::V4(v4_among(sources)[i]),
    decreases sources.len(),
{
    if sources.len() > 0 {
        let rest = sources.drop_last();
        assert forall|i: int| 0 <= i < rest.len() implies #[trigger] rest[i] is V4 by {
            assert(rest[i] == sources[i]);
        }
        lemma_all_v4(rest);
        assert(sources[sources.len() - 1] is V4);
        assert forall|i: int| 0 <= i < sources.len() implies #[trigger] sources[i] == IpAddr::V4(
            v4_among(sources)[i],
        ) by {
            if i < rest.len() {
                assert(rest[i] == sources[i]);
            }
        }
    }
}

proof fn lemma_all_v6(sources: Seq<IpAddr>)
    requires
        forall|i: int| 0 <= i < sources.len() ==> #[trigger] sources[i] is V6,
    ensures
        v6_among(sources).len() == sources.len(),
        forall|i: int|
            0 <= i < sources.len() ==> #[trigger] sources[i] == IpAddr::V6(v6_among(sources)[i]),
    decreases sources.len(),
{
    if sources.len() > 0 {
        let rest = sources.drop_last();
        assert forall|i: int| 0 <= i < rest.len() implies #[trigger] rest[i] is V6 by {
            assert(rest[i] == sources[i]);
        }
        lemma_all_v6(rest);
        assert(sources[sources.len() - 1] is V6);
        assert forall|i: int| 0 <= i < sources.len() implies #[trigger] sources[i] == IpAddr::V6(
            v6_among(sources)[i],
        ) by {
            if i < rest.len() {
                assert(rest[i] == sources[i]);
            }
        }
    }
}

/// With settings that make sense, no source is dropped silently: the sources
/// of the group's own family are all the sources, in their order.
pub proof fn law_no_source_is_dropped(server: Server, pinned: bool)
    requires
        server.fault(pinned) is None,
    ensures
        ({
            let sources = server.multicast_source@;
            match server.listen {
                IpAddr::V4(_) => {
                    &&& v4_among(sources).len() == sources.len()
                    &&& forall|i: int|
                        0 <= i < sources.len() ==> #[trigger] sources[i] == IpAddr::V4(
                            v4_among(sources)[i],
                        )
                },
                IpAddr::V6(_) => {
                    &&& v6_among(sources).len() == sources.len()
                    &&& forall|i: int|
                        0 <= i < sources.len() ==> #[trigger] sources[i] == IpAddr::V6(
                            v6_among(sources)[i],
                        )
                },
            }
        }),
{
    let sources = server.multicast_source@;
    if sources.len() > 0 {
        lemma_no_mismatch(sources, server.listen);
        match server.listen {
            IpAddr::V4(_) => lemma_all_v4(sources),
            IpAddr::V6(_) => lemma_all_v6(sources),
        }
    }
}

/// With settings that make sense, a source-specific group comes with sources,
/// and sources come with a multicast group and an interface to join on.
pub proof fn law_valid_servers_can_receive(server: Server, pinned: bool)
    requires
        server.fault(pinned) is None,
    ensures
        ssm(server.listen) ==> server.multicast_source@.len() > 0,
        ssm(server.listen) ==> ssm_destination_error(server.listen) is None,
        server.multicast_source@.len() > 0 ==> server.listen.multicast() && pinned,
{
}

/// A program that starts over TCP handles no multicast address.
pub proof fn law_tcp_is_unicast(cli: Cli)
    requires
        cli.start_fault() is None,
        cli.transport is Tcp,
    ensures
        !cli.target().multicast(),
{
}

/// A source is turned down exactly if it is a group, unspecified, a loopback
/// address, or not routable, and it is quoted in what is said of it. That it is
/// not a unicast address is said first.
pub proof fn law_sources_are_routable_unicast(addr: IpAddr, shown: Seq<char>)
    ensures
        source_fault(addr, shown) is None <==> !addr.multicast() && !addr.unspecified()
            && !addr.loopback() && !addr.non_routable(),
        source_fault(addr, shown) matches Some(text) ==> text == if addr.multicast()
            || addr.unspecified() || addr.loopback() {
            "must be a unicast address (got `"@ + shown + "`)"@
        } else {
            "must be a routable source address, not broadcast or link-local (got `"@ + shown
                + "`)"@
        },
{
}

/// The source that is told of is the first whose family is not that of the
/// group, and if none is told of there is none.
pub proof fn law_first_mismatch_is_first(sources: Seq<IpAddr>, listen: IpAddr)
    ensures
        first_mismatch(sources, listen) matches Some(source) ==> exists|i: int|
            {
                &&& 0 <= i < sources.len()
                &&& #[trigger] sources[i] == source
                &&& source is V4 != listen is V4
                &&& forall|j: int| 0 <= j < i ==> (#[trigger] sources[j] is V4) == (listen is V4)
            },
        first_mismatch(sources, listen) is None <==> forall|i: int|
            0 <= i < sources.len() ==> (#[trigger] sources[i] is V4) == (listen is V4),
    decreases sources.len(),
{
    if sources.len() > 0 {
        let rest = sources.drop_first();
        law_first_mismatch_is_first(rest, listen);
        if sources[0] is V4 == listen is V4 {
            if let Some(source) = first_mismatch(rest, listen) {
                let i = choose|i: int|
                    {
                        &&& 0 <= i < rest.len()
                        &&& #[trigger] rest[i] == source
                        &&& source is V4 != listen is V4
                        &&& forall|j: int|
                            0 <= j < i ==> (#[trigger] rest[j] is V4) == (listen is V4)
                    };
                assert(sources[i + 1] == source);
                assert forall|j: int| 0 <= j < i + 1 implies (#[trigger] sources[j] is V4) == (
                listen is V4) by {
                    if j > 0 {
                        assert(rest[j - 1] == sources[j]);
                    }
                }
            } else {
                lemma_no_mismatch(sources, listen);
            }
        } else {
            assert(sources[0] is V4 != listen is V4);
        }
    }
}

/// What is wrong with the settings of a server: a source-specific group that
/// cannot be used; then one without sources; then sources without a group, of
/// another family, or without an interface. Nothing is wrong with anything else.
pub proof fn law_server_faults(server: Server, pinned: bool)
    ensures
        ({
            let listen = server.listen;
            let sources = server.multicast_source@;
            let unusable = ssm(listen) && ssm_destination_error(listen) is Some;
            let mismatch = exists|i: int|
                0 <= i < sources.len() && (#[trigger] sources[i] is V4) != (listen is V4);
            let fault = server.fault(pinned);
            &&& fault is None <==> if ssm(listen) {
                !unusable && sources.len() > 0 && !mismatch && pinned
            } else {
                sources.len() == 0 || (listen.multicast() && !mismatch && pinned)
            }
            &&& (fault matches Some(error) && error is Destination) <==> unusable
            &&& fault matches Some(ServerError::Destination(error)) ==> ssm_destination_error(listen)
                == Some(error)
            &&& (fault matches Some(error) && error is SourceRequired) <==> ssm(listen) && !unusable
                && sources.len() == 0
            &&& (fault matches Some(error) && error is NotMulticast) <==> sources.len() > 0
                && !listen.multicast()
            &&& (fault matches Some(error) && error is FamilyMismatch) <==> !unusable
                && listen.multicast() && mismatch
            &&& (fault matches Some(error) && error is InterfaceRequired) <==> !unusable
                && listen.multicast() && sources.len() > 0 && !mismatch && !pinned
            &&& fault matches Some(ServerError::FamilyMismatch { source }) ==> first_mismatch(
                sources,
                listen,
            ) == Some(source)
        }),
{
    let listen = server.listen;
    let sources = server.multicast_source@;
    law_first_mismatch_is_first(sources, listen);
    if ssm(listen) {
        crate::ssm::law_usable_ssm_groups(listen);
    }
}

/// The sources of a family, among some sources and others, are those among the
/// ones and then those among the others; and a source is among those of its own
/// family alone.
pub proof fn law_sources_by_family(a: Seq<IpAddr>, b: Seq<IpAddr>, one: IpAddr)
    ensures
        v4_among(a + b) == v4_among(a) + v4_among(b),
        v6_among(a + b) == v6_among(a) + v6_among(b),
        v4_among(seq![one]) == (match one {
            IpAddr::V4(v4) => seq![v4],
            IpAddr::V6(_) => Seq::empty(),
        }),
        v6_among(seq![one]) == (match one {
            IpAddr::V4(_) => Seq::empty(),
            IpAddr::V6(v6) => seq![v6],
        }),
    decreases b.len(),
{
    assert(seq![one].drop_last() =~= Seq::<IpAddr>::empty());
    assert(v4_among(Seq::<IpAddr>::empty()) =~= Seq::<Ipv4Addr>::empty());
    assert(v6_among(Seq::<IpAddr>::empty()) =~= Seq::<Ipv6Addr>::empty());
    match one {
        IpAddr::V4(v4) => {
            assert(Seq::<Ipv4Addr>::empty().push(v4) =~= seq![v4]);
        },
        IpAddr::V6(v6) => {
            assert(Seq::<Ipv6Addr>::empty().push(v6) =~= seq![v6]);
        },
    }
    if b.len() == 0 {
        assert(a + b =~= a);
        assert(v4_among(a) + v4_among(b) =~= v4_among(a));
        assert(v6_among(a) + v6_among(b) =~= v6_among(a));
    } else {
        let rest = b.drop_last();
        law_sources_by_family(a, rest, one);
        assert((a + b).drop_last() =~= a + rest);
        assert(v4_among(a + b) =~= v4_among(a) + v4_among(b));
        assert(v6_among(a + b) =~= v6_among(a) + v6_among(b));
    }
}

/// The program does not start exactly if it is to carry multicast over TCP, or is
/// a server whose settings do not make sense; and that of TCP comes first.
pub proof fn law_start_faults(cli: Cli)
    ensures
        ({
            let target = match cli.kind {
                Participant::Client(client) => client.server,
                Participant::Server(server) => server.listen,
            };
            let over_tcp = cli.transport is Tcp && target.multicast();
            let fault = cli.start_fault();
            &&& (fault matches Some(error) && error is MulticastOverTcp) <==> over_tcp
            &&& !over_tcp ==> match cli.kind {
                Participant::Client(_) => fault is None,
                Participant::Server(server) => match server.fault(cli.multicast_iface is Some) {
                    None => fault is None,
                    Some(error) => fault == Some(StartError::Server(error)),
                },
            }
        }),
{
}

/// What is said of the settings of a server, word for word, quotes the address
/// that it is about.
pub proof fn law_messages_quote_the_address(
    error: ServerError,
    listen: Seq<char>,
    source: Seq<char>,
)
    ensures
        error matches ServerError::Destination(fault) ==> error.text(listen, source) == fault.text(
            listen,
        ),
        error is SourceRequired ==> error.text(listen, source) == "`listen` "@ + listen
            + " is in the source-specific multicast (SSM) range (232.0.0.0/8, ff3x::/32) but no sources were supplied; an any-source join is undeliverable. Pass `--multicast-source` for an INCLUDE-mode (S, G) join"@,
        error is NotMulticast ==> error.text(listen, source)
            == "`--multicast-source` requires `listen` to be a multicast address (got `"@ + listen
            + "`)"@,
        error is FamilyMismatch ==> error.text(listen, source)
            == "`--multicast-source` family must match the `listen` address family (got `"@ + source
            + "` vs listen `"@ + listen + "`)"@,
        error is InterfaceRequired ==> error.text(listen, source)
            == "`--multicast-source` requires `--multicast-iface` to pin the SSM join to a specific interface"@,
{
}

} // verus!
