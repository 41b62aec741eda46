//! Internet addresses as plain numbers, and how they are classified.
use vstd::prelude::*;

verus! {

/// An IPv4 address, `a.b.c.d`.
#[derive(Clone, Copy, Debug, PartialEq, Eq, Structural)]
pub struct Ipv4Addr {
    pub a: u8,
    pub b: u8,
    pub c: u8,
    pub d: u8,
}

/// An IPv6 address, `s0:s1:s2:s3:s4:s5:s6:s7`.
#[derive(Clone, Copy, Debug, PartialEq, Eq, Structural)]
pub struct Ipv6Addr {
    pub s0: u16,
    pub s1: u16,
    pub s2: u16,
    pub s3: u16,
    pub s4: u16,
    pub s5: u16,
    pub s6: u16,
    pub s7: u16,
}

/// An address of either family.
#[derive(Clone, Copy, Debug, PartialEq, Eq, Structural)]
pub enum IpAddr {
    V4(Ipv4Addr),
    V6(Ipv6Addr),
}

/// Where a socket is bound, or where its traffic goes.
#[derive(Clone, Copy, Debug, PartialEq, Eq, Structural)]
pub enum SocketAddr {
    V4 { v4: Ipv4Addr, port: u16 },
    V6 { v6: Ipv6Addr, port: u16, flowinfo: u32, scope: u32 },
}

/// The sixteen-bit word with these two bytes, most significant first.
pub open spec fn word(high: u8, low: u8) -> u16 {
    (high * 256 + low) as u16
}

impl Ipv4Addr {
    /// `0.0.0.0`
    pub open spec fn spec_unspecified() -> Ipv4Addr {
        Ipv4Addr { a: 0, b: 0, c: 0, d: 0 }
    }

    pub open spec fn spec_octets(self) -> Seq<u8> {
        seq![self.a, self.b, self.c, self.d]
    }

    /// `224.0.0.0/4`
    pub open spec fn multicast(self) -> bool {
        224 <= self.a <= 239
    }

    /// `127.0.0.0/8`
    pub open spec fn loopback(self) -> bool {
        self.a == 127
    }

    /// `169.254.0.0/16`
    pub open spec fn link_local(self) -> bool {
        self.a == 169 && self.b == 254
    }

    pub open spec fn broadcast(self) -> bool {
        self.a == 255 && self.b == 255 && self.c == 255 && self.d == 255
    }

    /// `0.0.0.0`
    pub fn unspecified() -> (addr: Ipv4Addr)
        ensures
            addr == Ipv4Addr::spec_unspecified(),
    {
        Ipv4Addr { a: 0, b: 0, c: 0, d: 0 }
    }

    pub fn new(a: u8, b: u8, c: u8, d: u8) -> (addr: Ipv4Addr)
        ensures
            addr == (Ipv4Addr { a, b, c, d }),
    {
        Ipv4Addr { a, b, c, d }
    }

    /// The address whose bytes are `octets`, in network order.
    pub open spec fn of_octets(octets: Seq<u8>) -> Ipv4Addr {
        Ipv4Addr { a: octets[0], b: octets[1], c: octets[2], d: octets[3] }
    }

    /// The address whose bytes are `octets`, in network order.
    pub fn from_octets(octets: [u8; 4]) -> (addr: Ipv4Addr)
        ensures
            addr == Ipv4Addr::of_octets(octets@),
            addr.spec_octets() == octets@,
    {
        Ipv4Addr { a: octets[0], b: octets[1], c: octets[2], d: octets[3] }
    }

    /// The bytes of the address, in network order.
    pub fn octets(&self) -> (octets: [u8; 4])
        ensures
            octets@ == self.spec_octets(),
    {
        [self.a, self.b, self.c, self.d]
    }
}

impl Ipv6Addr {
    /// `::`
    pub open spec fn spec_unspecified() -> Ipv6Addr {
        Ipv6Addr { s0: 0, s1: 0, s2: 0, s3: 0, s4: 0, s5: 0, s6: 0, s7: 0 }
    }

    pub open spec fn spec_segments(self) -> Seq<u16> {
        seq![self.s0, self.s1, self.s2, self.s3, self.s4, self.s5, self.s6, self.s7]
    }

    /// The sixteen bytes of the address, in network order.
    pub open spec fn spec_octets(self) -> Seq<u8> {
        Seq::new(
            16,
            |i: int|
                if i % 2 == 0 {
                    (self.spec_segments()[i / 2] / 256) as u8
                } else {
                    (self.spec_segments()[i / 2] % 256) as u8
                },
        )
    }

    /// `ff00::/8`
    pub open spec fn multicast(self) -> bool {
        self.s0 >= 0xff00
    }

    /// `::1`
    pub open spec fn loopback(self) -> bool {
        self == (Ipv6Addr { s0: 0, s1: 0, s2: 0, s3: 0, s4: 0, s5: 0, s6: 0, s7: 1 })
    }

    /// `fe80::/10`
    pub open spec fn unicast_link_local(self) -> bool {
        0xfe80 <= self.s0 <= 0xfebf
    }

    /// The scope nibble of a multicast address.
    pub open spec fn scope_nibble(self) -> u16 {
        self.s0 % 16
    }

    /// A group whose traffic stays on one interface or one link.
    pub open spec fn interface_or_link_local_group(self) -> bool {
        self.multicast() && (self.scope_nibble() == 1 || self.scope_nibble() == 2)
    }

    /// `::`
    pub fn unspecified() -> (addr: Ipv6Addr)
        ensures
            addr == Ipv6Addr::spec_unspecified(),
    {
        Ipv6Addr { s0: 0, s1: 0, s2: 0, s3: 0, s4: 0, s5: 0, s6: 0, s7: 0 }
    }

    pub fn new(
        s0: u16,
        s1: u16,
        s2: u16,
        s3: u16,
        s4: u16,
        s5: u16,
        s6: u16,
        s7: u16,
    ) -> (addr: Ipv6Addr)
        ensures
            addr == (Ipv6Addr { s0, s1, s2, s3, s4, s5, s6, s7 }),
    {
        Ipv6Addr { s0, s1, s2, s3, s4, s5, s6, s7 }
    }

    /// The eight segments of the address.
    pub fn segments(&self) -> (segments: [u16; 8])
        ensures
            segments@ == self.spec_segments(),
    {
        [self.s0, self.s1, self.s2, self.s3, self.s4, self.s5, self.s6, self.s7]
    }

    /// The address whose bytes are `octets`, in network order.
    pub open spec fn of_octets(octets: Seq<u8>) -> Ipv6Addr {
        Ipv6Addr {
            s0: word(octets[0], octets[1]),
            s1: word(octets[2], octets[3]),
            s2: word(octets[4], octets[5]),
            s3: word(octets[6], octets[7]),
            s4: word(octets[8], octets[9]),
            s5: word(octets[10], octets[11]),
            s6: word(octets[12], octets[13]),
            s7: word(octets[14], octets[15]),
        }
    }

    /// The address whose bytes are `octets`, in network order.
    pub fn from_octets(octets: [u8; 16]) -> (addr: Ipv6Addr)
        ensures
            addr == Ipv6Addr::of_octets(octets@),
            addr.spec_octets() == octets@,
    {
        let addr = Ipv6Addr {
            s0: join(octets[0], octets[1]),
            s1: join(octets[2], octets[3]),
            s2: join(octets[4], octets[5]),
            s3: join(octets[6], octets[7]),
            s4: join(octets[8], octets[9]),
            s5: join(octets[10], octets[11]),
            s6: join(octets[12], octets[13]),
            s7: join(octets[14], octets[15]),
        };
        assert(addr.spec_octets() =~= octets@);
        addr
    }

    /// The bytes of the address, in network order.
    pub fn octets(&self) -> (octets: [u8; 16])
        ensures
            octets@ == self.spec_octets(),
    {
        let octets: [u8; 16] = [
            high(self.s0),
            low(self.s0),
            high(self.s1),
            low(self.s1),
            high(self.s2),
            low(self.s2),
            high(self.s3),
            low(self.s3),
            high(self.s4),
            low(self.s4),
            high(self.s5),
            low(self.s5),
            high(self.s6),
            low(self.s6),
            high(self.s7),
            low(self.s7),
        ];
        assert(octets@ =~= self.spec_octets());
        octets
    }

    /// Whether the address is a group that stays on one interface or link,
    /// so that a socket bound to it needs the interface's index as its scope.
    pub fn is_interface_or_link_local_group(&self) -> (yes: bool)
        ensures
            yes == self.interface_or_link_local_group(),
    {
        self.s0 >= 0xff00 && (self.s0 % 16 == 1 || self.s0 % 16 == 2)
    }
}

fn join(high: u8, low: u8) -> (segment: u16)
    ensures
        segment == word(high, low),
        segment / 256 == high,
        segment % 256 == low,
{
    high as u16 * 256 + low as u16
}

fn high(segment: u16) -> (byte: u8)
    ensures
        byte == segment / 256,
{
    (segment / 256) as u8
}

fn low(segment: u16) -> (byte: u8)
    ensures
        byte == segment % 256,
{
    (segment % 256) as u8
}

impl IpAddr {
    pub open spec fn multicast(self) -> bool {
        match self {
            IpAddr::V4(v4) => v4.multicast(),
            IpAddr::V6(v6) => v6.multicast(),
        }
    }

    pub open spec fn unspecified(self) -> bool {
        match self {
            IpAddr::V4(v4) => v4 == Ipv4Addr::spec_unspecified(),
            IpAddr::V6(v6) => v6 == Ipv6Addr::spec_unspecified(),
        }
    }

    pub open spec fn loopback(self) -> bool {
        match self {
            IpAddr::V4(v4) => v4.loopback(),
            IpAddr::V6(v6) => v6.loopback(),
        }
    }

    /// Addresses that no router forwards from: the IPv4 broadcast address
    /// and link-local addresses.
    pub open spec fn non_routable(self) -> bool {
        match self {
            IpAddr::V4(v4) => v4.broadcast() || v4.link_local(),
            IpAddr::V6(v6) => v6.unicast_link_local(),
        }
    }

    /// Whether the address names a multicast group.
    pub fn is_multicast(&self) -> (yes: bool)
        ensures
            yes == self.multicast(),
    {
        match *self {
            IpAddr::V4(v4) => v4.a >= 224 && v4.a <= 239,
            IpAddr::V6(v6) => v6.s0 >= 0xff00,
        }
    }

    /// Whether the address is `0.0.0.0` or `::`.
    pub fn is_unspecified(&self) -> (yes: bool)
        ensures
            yes == self.unspecified(),
    {
        match *self {
            IpAddr::V4(v4) => v4 == Ipv4Addr::unspecified(),
            IpAddr::V6(v6) => v6 == Ipv6Addr::unspecified(),
        }
    }

    /// Whether the address is in `127.0.0.0/8` or is `::1`.
    pub fn is_loopback(&self) -> (yes: bool)
        ensures
            yes == self.loopback(),
    {
        match *self {
            IpAddr::V4(v4) => v4.a == 127,
            IpAddr::V6(v6) => v6 == Ipv6Addr::new(0, 0, 0, 0, 0, 0, 0, 1),
        }
    }

    /// Whether the address cannot be the source of routed traffic.
    pub fn is_non_routable(&self) -> (yes: bool)
        ensures
            yes == self.non_routable(),
    {
        match *self {
            IpAddr::V4(v4) => {
                (v4.a == 255 && v4.b == 255 && v4.c == 255 && v4.d == 255) || (v4.a == 169
                    && v4.b == 254)
            },
            IpAddr::V6(v6) => v6.s0 >= 0xfe80 && v6.s0 <= 0xfebf,
        }
    }

    pub fn is_ipv4(&self) -> (yes: bool)
        ensures
            yes == (*self is V4),
    {
        match *self {
            IpAddr::V4(_) => true,
            IpAddr::V6(_) => false,
        }
    }
}

/// The socket address of `ip` at `port`; `scope` counts for IPv6 alone.
pub open spec fn socket_addr(ip: IpAddr, port: u16, scope: u32) -> SocketAddr {
    match ip {
        IpAddr::V4(v4) => SocketAddr::V4 { v4, port },
        IpAddr::V6(v6) => SocketAddr::V6 { v6, port, flowinfo: 0, scope },
    }
}

/// The address to connect to, or to bind, for `ip` and `port`.
pub fn make_addr(ip: IpAddr, port: u16, scope: u32) -> (addr: SocketAddr)
    ensures
        addr == socket_addr(ip, port, scope),
{
    match ip {
        IpAddr::V4(v4) => SocketAddr::V4 { v4, port },
        IpAddr::V6(v6) => SocketAddr::V6 { v6, port, flowinfo: 0, scope },
    }
}

/// The wildcard address and port of the family of `server`.
pub open spec fn wildcard(server: IpAddr) -> SocketAddr {
    match server {
        IpAddr::V4(_) => socket_addr(IpAddr::V4(Ipv4Addr::spec_unspecified()), 0, 0),
        IpAddr::V6(_) => socket_addr(IpAddr::V6(Ipv6Addr::spec_unspecified()), 0, 0),
    }
}

/// The address that a datagram client for `server` is bound to: the wildcard
/// address and port of the same family.
pub fn any_local_addr(server: IpAddr) -> (addr: SocketAddr)
    ensures
        addr == wildcard(server),
{
    match server {
        IpAddr::V4(_) => make_addr(IpAddr::V4(Ipv4Addr::unspecified()), 0, 0),
        IpAddr::V6(_) => make_addr(IpAddr::V6(Ipv6Addr::unspecified()), 0, 0),
    }
}

/// The address as a single number, most significant byte first.
pub open spec fn v4_number(v4: Ipv4Addr) -> int {
    v4.a * 0x100_0000 + v4.b * 0x1_0000 + v4.c * 0x100 + v4.d
}

/// The classes of IPv4 addresses are ranges of numbers.
pub proof fn law_v4_classes_are_ranges(v4: Ipv4Addr)
    ensures
        v4.multicast() <==> 0xe000_0000 <= v4_number(v4) <= 0xefff_ffff,
        v4.loopback() <==> 0x7f00_0000 <= v4_number(v4) <= 0x7fff_ffff,
        v4.link_local() <==> 0xa9fe_0000 <= v4_number(v4) <= 0xa9fe_ffff,
        v4.broadcast() <==> v4_number(v4) == 0xffff_ffff,
        v4 == Ipv4Addr::spec_unspecified() <==> v4_number(v4) == 0,
{
}

/// The classes of IPv6 addresses show in their bytes.
pub proof fn law_v6_classes_show_in_bytes(v6: Ipv6Addr)
    ensures
        ({
            let bytes = v6.spec_octets();
            &&& v6.multicast() <==> bytes[0] == 0xff
            &&& v6.unicast_link_local() <==> bytes[0] == 0xfe && bytes[1] / 64 == 2
            &&& v6.loopback() <==> bytes[15] == 1 && forall|i: int|
                0 <= i < 15 ==> #[trigger] bytes[i] == 0
            &&& v6 == Ipv6Addr::spec_unspecified() <==> forall|i: int|
                0 <= i < 16 ==> #[trigger] bytes[i] == 0
            &&& v6.scope_nibble() == bytes[1] % 16
            &&& v6.interface_or_link_local_group() <==> bytes[0] == 0xff && (bytes[1] % 16 == 1
                || bytes[1] % 16 == 2)
        }),
{
    let bytes = v6.spec_octets();
    law_octets_are_in_network_order(v6);
    assert(v6.spec_segments().len() == 8);
    if v6.loopback() {
        assert forall|i: int| 0 <= i < 15 implies #[trigger] bytes[i] == 0 by {
            assert(v6.spec_segments()[i / 2] == if i / 2 == 7 {
                1u16
            } else {
                0u16
            });
        }
    }
    if v6 == Ipv6Addr::spec_unspecified() {
        assert forall|i: int| 0 <= i < 16 implies #[trigger] bytes[i] == 0 by {
            assert(v6.spec_segments()[i / 2] == 0);
        }
    }
}

/// The bytes of an address are those of its parts, one after the other, most
/// significant first, and make up the address again.
pub proof fn law_octets_are_in_network_order(v6: Ipv6Addr)
    ensures
        v6.spec_octets().len() == 16,
        v6.s0 == v6.spec_octets()[0] * 256 + v6.spec_octets()[1],
        v6.s1 == v6.spec_octets()[2] * 256 + v6.spec_octets()[3],
        v6.s2 == v6.spec_octets()[4] * 256 + v6.spec_octets()[5],
        v6.s3 == v6.spec_octets()[6] * 256 + v6.spec_octets()[7],
        v6.s4 == v6.spec_octets()[8] * 256 + v6.spec_octets()[9],
        v6.s5 == v6.spec_octets()[10] * 256 + v6.spec_octets()[11],
        v6.s6 == v6.spec_octets()[12] * 256 + v6.spec_octets()[13],
        v6.s7 == v6.spec_octets()[14] * 256 + v6.spec_octets()[15],
        Ipv6Addr::of_octets(v6.spec_octets()) == v6,
        v6.spec_segments() == seq![v6.s0, v6.s1, v6.s2, v6.s3, v6.s4, v6.s5, v6.s6, v6.s7],
{
}

/// The bytes of an IPv4 address make up the address again.
pub proof fn law_v4_octets_make_up_the_address(v4: Ipv4Addr)
    ensures
        v4.spec_octets().len() == 4,
        v4_number(v4) == v4.spec_octets()[0] * 0x100_0000 + v4.spec_octets()[1] * 0x1_0000
            + v4.spec_octets()[2] * 0x100 + v4.spec_octets()[3],
        Ipv4Addr::of_octets(v4.spec_octets()) == v4,
{
}

/// An address is classified by its own family, and is never at once a group, a
/// loopback address and unspecified.
pub proof fn law_classes_go_by_family(ip: IpAddr)
    ensures
        ip matches IpAddr::V4(v4) ==> {
            &&& ip.multicast() <==> v4.multicast()
            &&& ip.loopback() <==> v4.loopback()
            &&& ip.unspecified() <==> v4_number(v4) == 0
            &&& ip.non_routable() <==> v4.link_local() || v4.broadcast()
        },
        ip matches IpAddr::V6(v6) ==> {
            &&& ip.multicast() <==> v6.multicast()
            &&& ip.loopback() <==> v6.loopback()
            &&& ip.unspecified() <==> v6 == (Ipv6Addr {
                s0: 0,
                s1: 0,
                s2: 0,
                s3: 0,
                s4: 0,
                s5: 0,
                s6: 0,
                s7: 0,
            })
            &&& ip.non_routable() <==> v6.unicast_link_local()
        },
        !(ip.multicast() && ip.loopback()),
        !(ip.multicast() && ip.unspecified()),
        !(ip.loopback() && ip.unspecified()),
        !(ip.multicast() && ip.non_routable()),
{
}

/// A socket address keeps the address and the port that it is made of; one of
/// IPv6 also keeps the zone, and carries no flow. The local address of a client
/// is of the family of its server, and leaves address and port open.
pub proof fn law_socket_addr_keeps_its_parts(ip: IpAddr, port: u16, scope: u32)
    ensures
        ip matches IpAddr::V4(v4) ==> socket_addr(ip, port, scope) == (SocketAddr::V4 { v4, port }),
        ip matches IpAddr::V6(v6) ==> socket_addr(ip, port, scope) == (SocketAddr::V6 {
            v6,
            port,
            flowinfo: 0,
            scope,
        }),
        ip is V4 ==> (wildcard(ip) matches SocketAddr::V4 { v4, port } && v4_number(v4) == 0
            && port == 0),
        ip is V6 ==> (wildcard(ip) matches SocketAddr::V6 { v6, port, flowinfo, scope } && IpAddr::V6(
            v6,
        ).unspecified() && port == 0 && flowinfo == 0 && scope == 0),
{
}

proof fn lemma_word(high: u8, low: u8)
    ensures
        word(high, low) / 256 == high,
        word(high, low) % 256 == low,
{
}

/// The address of some bytes has those bytes.
pub proof fn law_address_of_octets_has_those_octets(octets: Seq<u8>)
    ensures
        octets.len() == 4 ==> Ipv4Addr::of_octets(octets).spec_octets() == octets,
        octets.len() == 16 ==> Ipv6Addr::of_octets(octets).spec_octets() == octets,
{
    if octets.len() == 4 {
        assert(Ipv4Addr::of_octets(octets).spec_octets() =~= octets);
    }
    if octets.len() == 16 {
        let v6 = Ipv6Addr::of_octets(octets);
        assert forall|i: int| 0 <= i < 16 implies #[trigger] v6.spec_octets()[i] == octets[i] by {
            let k = i / 2;
            lemma_word(octets[2 * k], octets[2 * k + 1]);
            assert(v6.spec_segments()[k] == word(octets[2 * k], octets[2 * k + 1])) by {
                assert(k == 0 || k == 1 || k == 2 || k == 3 || k == 4 || k == 5 || k == 6
                    || k == 7);
            }
            if i % 2 == 0 {
                assert(i == 2 * k);
            } else {
                assert(i == 2 * k + 1);
            }
        }
        assert(v6.spec_octets() =~= octets);
    }
}

} // verus!
