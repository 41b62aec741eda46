//! Source-specific multicast (SSM): which groups are source-specific, which
//! of those can be joined, and the source filter of an IPv6 join.
use crate::addr::{IpAddr, Ipv4Addr, Ipv6Addr};
use vstd::prelude::*;

verus! {

/// Addresses in `232.0.0.0/8` or `ff3x::/32`, the source-specific ranges of
/// RFC 4607. The IPv6 space is sixteen disjoint blocks, one for each scope.
pub open spec fn ssm(addr: IpAddr) -> bool {
    match addr {
        IpAddr::V4(v4) => v4.a == 232,
        IpAddr::V6(v6) => 0xff30 <= v6.s0 <= 0xff3f && v6.s1 == 0,
    }
}

/// Whether `addr` is in the source-specific multicast range. Such a group
/// builds no shared tree, so it is reachable only through a join that names
/// the sources.
pub fn is_ssm_multicast(addr: IpAddr) -> (yes: bool)
    ensures
        yes == ssm(addr),
{
    match addr {
        IpAddr::V4(v4) => v4.a == 232,
        IpAddr::V6(v6) => {
            let s0: u16 = v6.s0;
            assert((s0 & 0xfff0 == 0xff30) == (0xff30 <= s0 && s0 <= 0xff3f)) by (bit_vector);
            s0 & 0xfff0 == 0xff30 && v6.s1 == 0
        },
    }
}

/// Why a source-specific group cannot be used.
#[derive(Clone, Copy, Debug, PartialEq, Eq, Structural)]
pub enum SsmError {
    /// In `232.0.0.0/24`, which is reserved.
    Reserved,
    /// The scope does not reach beyond one machine, or is not assigned.
    UnusableScope { scope: u16 },
    /// Not among the group identifiers that are allocated dynamically.
    NotAllocatable,
}

/// Admin-local, site-local, organization-local and global.
pub open spec fn usable_scope(scope: u16) -> bool {
    scope == 0x4 || scope == 0x5 || scope == 0x8 || scope == 0xe
}

/// The last thirty-two bits of `v6`.
pub open spec fn group_id(v6: Ipv6Addr) -> int {
    v6.s6 * 0x10000 + v6.s7
}

/// Groups `ff3x::8000:0` through `ff3x::ffff:ffff`, of a group that is known
/// to be in `ff3x::/32`.
pub open spec fn allocatable(v6: Ipv6Addr) -> bool {
    v6.s2 == 0 && v6.s3 == 0 && v6.s4 == 0 && v6.s5 == 0 && group_id(v6) >= 0x8000_0000
}

/// What is wrong with the source-specific group `addr`, if anything is.
pub open spec fn ssm_destination_error(addr: IpAddr) -> Option<SsmError> {
    match addr {
        IpAddr::V4(v4) => if v4.b == 0 && v4.c == 0 {
            Some(SsmError::Reserved)
        } else {
            None
        },
        IpAddr::V6(v6) => if !usable_scope(v6.scope_nibble()) {
            Some(SsmError::UnusableScope { scope: v6.scope_nibble() })
        } else if !allocatable(v6) {
            Some(SsmError::NotAllocatable)
        } else {
            None
        },
    }
}

/// Hold an address that [`is_ssm_multicast`] against the rules by which such
/// groups are allocated. A group that breaks them is never forwarded, so that
/// joining it would receive nothing, silently.
pub fn validate_ssm_destination(addr: IpAddr) -> (verdict: Result<(), SsmError>)
    ensures
        verdict is Ok <==> ssm_destination_error(addr) is None,
        verdict matches Err(error) ==> ssm_destination_error(addr) == Some(error) && error.wf(),
{
    match addr {
        IpAddr::V4(v4) => {
            if v4.b == 0 && v4.c == 0 {
                return Err(SsmError::Reserved);
            }
        },
        IpAddr::V6(v6) => {
            let s0: u16 = v6.s0;
            assert(s0 & 0x000f == s0 % 16) by (bit_vector);
            let scope: u16 = s0 & 0x000f;
            if !matches!(scope, 0x4 | 0x5 | 0x8 | 0xe) {
                return Err(SsmError::UnusableScope { scope });
            }
            let within_prefix: bool = v6.s2 == 0 && v6.s3 == 0 && v6.s4 == 0 && v6.s5 == 0;
            let id: u32 = v6.s6 as u32 * 0x10000 + v6.s7 as u32;
            if !within_prefix || id < 0x8000_0000 {
                return Err(SsmError::NotAllocatable);
            }
        },
    }
    Ok(())
}

/// A nibble as a hexadecimal digit.
pub open spec fn hex_digit(nibble: u16) -> Seq<char> {
    "0123456789abcdef"@.subrange(nibble as int, nibble + 1)
}

impl SsmError {
    /// A scope in an error is a nibble.
    pub open spec fn wf(self) -> bool {
        self matches SsmError::UnusableScope { scope } ==> scope < 16
    }

    pub open spec fn text(self, addr: Seq<char>) -> Seq<char> {
        match self {
            SsmError::Reserved => addr
                + " is in the reserved IPv4 SSM subnet (232.0.0.0/24, RFC 4607)"@,
            SsmError::UnusableScope { scope } => addr + " has an unusable multicast scope nibble ("@
                + hex_digit(scope)
                + "); usable scopes are admin-local (4), site-local (5), organization-local (8), and global (e)"@,
            SsmError::NotAllocatable => addr
                + " is not a dynamically allocatable IPv6 SSM address (ff3x::8000:0 through ff3x::ffff:ffff per RFC 4607)"@,
        }
    }

    /// The error in words, about the group that is written `addr`.
    pub fn message(&self, addr: &str) -> (text: String)
        requires
            self.wf(),
        ensures
            text@ == self.text(addr@),
    {
        let mut text = addr.to_owned();
        match *self {
            SsmError::Reserved => {
                text.append(" is in the reserved IPv4 SSM subnet (232.0.0.0/24, RFC 4607)");
            },
            SsmError::UnusableScope { scope } => {
                let digits = "0123456789abcdef";
                proof {
                    reveal_strlit("0123456789abcdef");
                }
                text.append(" has an unusable multicast scope nibble (");
                text.append(digits.substring_ascii(scope as usize, scope as usize + 1));
                text.append(
                    "); usable scopes are admin-local (4), site-local (5), organization-local (8), and global (e)",
                );
            },
            SsmError::NotAllocatable => {
                text.append(
                    " is not a dynamically allocatable IPv6 SSM address (ff3x::8000:0 through ff3x::ffff:ffff per RFC 4607)",
                );
            },
        }
        text
    }
}

/// Source-specific groups are multicast groups, and one that can be used
/// reaches beyond its interface and link.
pub proof fn law_usable_ssm_groups(addr: IpAddr)
    requires
        ssm(addr),
    ensures
        addr.multicast(),
        ssm_destination_error(addr) is None ==> (addr matches IpAddr::V6(v6)
            ==> !v6.interface_or_link_local_group()),
{
}

/// Source filter mode: only the listed sources are received.
pub const MCAST_INCLUDE: u32 = 1;

/// An IPv6 socket address as the source filter takes it: only the address is
/// set.
#[derive(Clone, Copy, Debug, PartialEq, Eq)]
pub struct SockaddrIn6 {
    pub port: u16,
    pub flowinfo: u32,
    pub addr: [u8; 16],
    pub scope_id: u32,
}

pub open spec fn bare_sockaddr(sockaddr: SockaddrIn6, addr: Ipv6Addr) -> bool {
    &&& sockaddr.port == 0
    &&& sockaddr.flowinfo == 0
    &&& sockaddr.addr@ == addr.spec_octets()
    &&& sockaddr.scope_id == 0
}

fn make_in6(addr: Ipv6Addr) -> (sockaddr: SockaddrIn6)
    ensures
        bare_sockaddr(sockaddr, addr),
{
    SockaddrIn6 { port: 0, flowinfo: 0, addr: addr.octets(), scope_id: 0 }
}

/// What is asked of the system for an IPv6 join that names its sources.
#[derive(Debug)]
pub struct SourceFilter {
    pub interface: u32,
    pub group: SockaddrIn6,
    pub mode: u32,
    pub sources: Vec<SockaddrIn6>,
}

/// The filter that joins `group` on interface `ifindex` for traffic from
/// `sources` alone.
pub fn join_ssm_v6(group: Ipv6Addr, sources: &[Ipv6Addr], ifindex: u32) -> (filter: SourceFilter)
    requires
        sources@.len() > 0,
    ensures
        filter.interface == ifindex,
        filter.mode == MCAST_INCLUDE,
        filter.mode == 1,
        bare_sockaddr(filter.group, group),
        filter.sources@.len() == sources@.len(),
        forall|i: int|
            0 <= i < sources@.len() ==> bare_sockaddr(#[trigger] filter.sources@[i], sources@[i]),
{
    let mut slist: Vec<SockaddrIn6> = Vec::new();
    let mut i: usize = 0;
    while i < sources.len()
        invariant
            i <= sources@.len(),
            slist@.len() == i,
            forall|j: int| 0 <= j < i ==> bare_sockaddr(#[trigger] slist@[j], sources@[j]),
        decreases sources@.len() - i,
    {
        slist.push(make_in6(sources[i]));
        i = i + 1;
    }
    SourceFilter { interface: ifindex, group: make_in6(group), mode: MCAST_INCLUDE, sources: slist }
}

/// A group is source-specific if its first byte is 232, or if its first bytes are
/// those of `ff3x::/32` for some scope.
pub proof fn law_ssm_ranges(addr: IpAddr)
    ensures
        addr matches IpAddr::V4(v4) ==> (ssm(addr) <==> 0xe800_0000 <= crate::addr::v4_number(v4)
            <= 0xe8ff_ffff),
        addr matches IpAddr::V6(v6) ==> (ssm(addr) <==> v6.spec_octets()[0] == 0xff
            && v6.spec_octets()[1] / 16 == 3 && v6.spec_octets()[2] == 0 && v6.spec_octets()[3]
            == 0),
{
    if let IpAddr::V6(v6) = addr {
        crate::addr::law_octets_are_in_network_order(v6);
    }
}

/// Of the source-specific groups, exactly these can be used: of IPv4 those from
/// `232.0.1.0` on, and of IPv6 those from `ff3x::8000:0` to `ff3x::ffff:ffff`
/// whose scope is 4, 5, 8 or e. Of the others it is said what is wrong with them:
/// of IPv6, the scope first.
pub proof fn law_usable_ssm_ranges(addr: IpAddr)
    requires
        ssm(addr),
    ensures
        addr matches IpAddr::V4(v4) ==> {
            &&& ssm_destination_error(addr) is None <==> crate::addr::v4_number(v4) >= 0xe800_0100
            &&& ssm_destination_error(addr) matches Some(error) ==> error is Reserved
        },
        addr matches IpAddr::V6(v6) ==> {
            let scope = v6.s0 - 0xff30;
            let usable = scope == 4 || scope == 5 || scope == 8 || scope == 14;
            let id = v6.s6 * 0x1_0000 + v6.s7;
            &&& ssm_destination_error(addr) is None <==> usable && id >= 0x8000_0000 && v6 == (
            Ipv6Addr {
                s0: (0xff30 + scope) as u16,
                s1: 0,
                s2: 0,
                s3: 0,
                s4: 0,
                s5: 0,
                s6: (id / 0x1_0000) as u16,
                s7: (id % 0x1_0000) as u16,
            })
            &&& ssm_destination_error(addr) matches Some(error) ==> if usable {
                error is NotAllocatable
            } else {
                error matches SsmError::UnusableScope { scope: told } && told == scope
            }
        },
{
}

/// What is said of a group names it, whatever it is; and of a scope, its
/// hexadecimal digit.
pub proof fn law_messages_name_the_group(error: SsmError, addr: Seq<char>)
    requires
        error.wf(),
    ensures
        addr.is_prefix_of(error.text(addr)),
        error is Reserved ==> error.text(addr) == addr
            + " is in the reserved IPv4 SSM subnet (232.0.0.0/24, RFC 4607)"@,
        error is NotAllocatable ==> error.text(addr) == addr
            + " is not a dynamically allocatable IPv6 SSM address (ff3x::8000:0 through ff3x::ffff:ffff per RFC 4607)"@,
        error matches SsmError::UnusableScope { scope } ==> error.text(addr) == addr
            + " has an unusable multicast scope nibble ("@ + hex_digit(scope)
            + "); usable scopes are admin-local (4), site-local (5), organization-local (8), and global (e)"@,
        error matches SsmError::UnusableScope { scope } ==> hex_digit(scope).len() == 1 && (scope
            < 10 ==> hex_digit(scope)[0] as int == '0' as int + scope) && (scope >= 10
            ==> hex_digit(scope)[0] as int == 'a' as int + scope - 10),
{
    reveal_strlit("0123456789abcdef");
    assert(addr =~= error.text(addr).subrange(0, addr.len() as int));
}

/// A socket address in a source filter is that of an address and nothing else:
/// the address can be read from its bytes, and all other parts are 0.
pub proof fn law_filter_addresses_are_bare(sockaddr: SockaddrIn6, addr: Ipv6Addr)
    requires
        bare_sockaddr(sockaddr, addr),
    ensures
        Ipv6Addr::of_octets(sockaddr.addr@) == addr,
        sockaddr.port == 0,
        sockaddr.flowinfo == 0,
        sockaddr.scope_id == 0,
{
    crate::addr::law_octets_are_in_network_order(addr);
}

} // verus!
