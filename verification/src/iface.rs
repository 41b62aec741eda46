//! The interface that multicast traffic is pinned to.
use crate::addr::{IpAddr, Ipv4Addr, Ipv6Addr};
use crate::text::quoted;
use vstd::prelude::*;

verus! {

/// The interface selector for pinning multicast traffic: an interface name
/// such as `net0`, or an IP address bound to the interface.
///
/// The family of the group decides what the selector resolves to. An IPv4
/// group needs the interface's IPv4 address, an IPv6 group its index. An
/// address that appears on several interfaces resolves to the first of them.
#[derive(Clone, Debug)]
pub enum InterfaceSelector {
    Name(String),
    Addr(IpAddr),
}

/// The address of an entry of the interface list, by its family.
#[derive(Clone, Copy, Debug)]
pub enum IfSockaddr {
    Inet([u8; 4]),
    Inet6([u8; 16]),
    Other,
}

/// An entry of the interface list: an interface, perhaps with an address. An
/// entry has no name here if its name is no text.
#[derive(Debug)]
pub struct IfEntry {
    pub name: Option<String>,
    pub sockaddr: Option<IfSockaddr>,
}

/// Why a selector does not resolve.
#[derive(Debug)]
pub enum SelectorError {
    /// No interface has the address.
    NoOwner,
    /// The interface of that name has no IPv4 address.
    NoV4Address { name: String },
    /// The address belongs to that interface, which has no IPv4 address.
    OwnerWithoutV4 { name: String },
    EmptyName,
    NulInName,
    /// The system knows no interface of that name.
    NoSuchInterface { name: String },
}

/// The same, of names as plain sequences.
#[verifier::ext_equal]
pub enum SelectorFault {
    NoOwner,
    NoV4Address { name: Seq<char> },
    OwnerWithoutV4 { name: Seq<char> },
    EmptyName,
    NulInName,
    NoSuchInterface { name: Seq<char> },
}

impl View for SelectorError {
    type V = SelectorFault;

    open spec fn view(&self) -> SelectorFault {
        match *self {
            SelectorError::NoOwner => SelectorFault::NoOwner,
            SelectorError::NoV4Address { name } => SelectorFault::NoV4Address { name: name@ },
            SelectorError::OwnerWithoutV4 { name } => SelectorFault::OwnerWithoutV4 { name: name@ },
            SelectorError::EmptyName => SelectorFault::EmptyName,
            SelectorError::NulInName => SelectorFault::NulInName,
            SelectorError::NoSuchInterface { name } => SelectorFault::NoSuchInterface {
                name: name@,
            },
        }
    }
}

impl IfEntry {
    /// The address of the entry, if it has one of the internet families.
    pub open spec fn addr(self) -> Option<IpAddr> {
        match self.sockaddr {
            Some(IfSockaddr::Inet(octets)) => Some(IpAddr::V4(Ipv4Addr::of_octets(octets@))),
            Some(IfSockaddr::Inet6(octets)) => Some(IpAddr::V6(Ipv6Addr::of_octets(octets@))),
            _ => None,
        }
    }

    /// Whether the entry belongs to interface `name`. Addresses may live on
    /// logical interfaces, `name:1` and so on, so those count too.
    pub open spec fn belongs_to(self, name: Seq<char>) -> bool {
        self.name matches Some(own) && named_for(own@, name)
    }
}

/// Whether `own` is `name`, or `name` with a suffix behind a colon.
pub open spec fn named_for(own: Seq<char>, name: Seq<char>) -> bool {
    &&& name.len() > 0
    &&& name.is_prefix_of(own)
    &&& own.len() > name.len() ==> own[name.len() as int] == ':'
}

/// `name` up to its first colon.
pub open spec fn base_name(name: Seq<char>) -> Seq<char>
    decreases name.len(),
{
    if name.len() == 0 || name[0] == ':' {
        Seq::empty()
    } else {
        seq![name[0]] + base_name(name.drop_first())
    }
}

/// The first entry with address `addr`.
pub open spec fn owner_entry(entries: Seq<IfEntry>, addr: IpAddr) -> Option<IfEntry>
    decreases entries.len(),
{
    if entries.len() == 0 {
        None
    } else if entries[0].addr() == Some(addr) {
        Some(entries[0])
    } else {
        owner_entry(entries.drop_first(), addr)
    }
}

/// The base name of the interface that `addr` is bound to, without the suffix
/// of a logical interface.
pub open spec fn owner(entries: Seq<IfEntry>, addr: IpAddr) -> Option<Seq<char>> {
    match owner_entry(entries, addr) {
        Some(IfEntry { name: Some(name), .. }) if base_name(name@).len() > 0 => Some(
            base_name(name@),
        ),
        _ => None,
    }
}

/// The first IPv4 address that is bound to interface `name`.
pub open spec fn first_v4(entries: Seq<IfEntry>, name: Seq<char>) -> Option<Ipv4Addr>
    decreases entries.len(),
{
    if entries.len() == 0 {
        None
    } else {
        match entries[0].addr() {
            Some(IpAddr::V4(v4)) if entries[0].belongs_to(name) => Some(v4),
            _ => first_v4(entries.drop_first(), name),
        }
    }
}

/// What can be wrong with an interface name before the system is asked.
pub open spec fn name_fault(name: Seq<char>) -> Option<SelectorFault> {
    if name.len() == 0 {
        Some(SelectorFault::EmptyName)
    } else if name.contains('\0') {
        Some(SelectorFault::NulInName)
    } else {
        None
    }
}

fn chars_of(text: &str) -> (chars: Vec<char>)
    ensures
        chars@ == text@,
{
    let mut chars: Vec<char> = Vec::new();
    for c in it: text.chars()
        invariant
            chars@ == it.seq().take(it.index()),
            it.seq() == text@,
    {
        chars.push(c);
    }
    chars
}

/// The address of `entry`, if it has one of the internet families.
pub fn entry_addr(entry: &IfEntry) -> (addr: Option<IpAddr>)
    ensures
        addr == entry.addr(),
{
    match entry.sockaddr {
        Some(IfSockaddr::Inet(octets)) => Some(IpAddr::V4(Ipv4Addr::from_octets(octets))),
        Some(IfSockaddr::Inet6(octets)) => Some(IpAddr::V6(Ipv6Addr::from_octets(octets))),
        _ => None,
    }
}

/// Whether `entry` belongs to interface `name`, or to a logical interface of
/// it (`name:1`, `name:2`).
pub fn entry_matches(entry: &IfEntry, name: &str) -> (yes: bool)
    ensures
        yes == entry.belongs_to(name@),
{
    if name.is_empty() {
        return false;
    }
    match &entry.name {
        None => false,
        Some(own) => {
            let own = chars_of(own.as_str());
            let name = chars_of(name);
            starts_with(&own, &name) && (own.len() == name.len() || own[name.len()] == ':')
        },
    }
}

fn starts_with(text: &Vec<char>, prefix: &Vec<char>) -> (yes: bool)
    ensures
        yes == prefix@.is_prefix_of(text@),
{
    if text.len() < prefix.len() {
        return false;
    }
    let mut i: usize = 0;
    while i < prefix.len()
        invariant
            i <= prefix@.len() <= text@.len(),
            forall|j: int| 0 <= j < i ==> text@[j] == prefix@[j],
        decreases prefix@.len() - i,
    {
        if text[i] != prefix[i] {
            assert(text@.subrange(0, prefix@.len() as int)[i as int] == text@[i as int]);
            return false;
        }
        i = i + 1;
    }
    assert(text@.subrange(0, prefix@.len() as int) =~= prefix@);
    true
}

proof fn lemma_base_name(name: Seq<char>, i: int)
    requires
        0 <= i <= name.len(),
        forall|j: int| 0 <= j < i ==> name[j] != ':',
        i < name.len() ==> name[i] == ':',
    ensures
        base_name(name) == name.take(i),
    decreases name.len(),
{
    if name.len() == 0 || name[0] == ':' {
        assert(name.take(i) =~= Seq::empty());
    } else {
        lemma_base_name(name.drop_first(), i - 1);
        assert(name.take(i) =~= seq![name[0]] + name.drop_first().take(i - 1));
    }
}

/// `name` without the suffix of a logical interface.
fn strip_suffix(name: &str) -> (base: String)
    ensures
        base@ == base_name(name@),
{
    let chars = chars_of(name);
    let mut i: usize = 0;
    while i < chars.len() && chars[i] != ':'
        invariant
            i <= chars@.len(),
            forall|j: int| 0 <= j < i ==> chars@[j] != ':',
        decreases chars@.len() - i,
    {
        i = i + 1;
    }
    proof {
        lemma_base_name(name@, i as int);
    }
    name.substring_char(0, i).to_owned()
}

/// The base name of the interface that `addr` is bound to, with any suffix of
/// a logical interface (`:1`) stripped so that the system knows it.
pub fn owner_name(entries: &[IfEntry], addr: IpAddr) -> (name: Option<String>)
    ensures
        name is Some <==> owner(entries@, addr) is Some,
        name matches Some(base) ==> owner(entries@, addr) == Some(base@),
{
    let mut i: usize = 0;
    assert(entries@.skip(0) =~= entries@);
    while i < entries.len()
        invariant
            i <= entries@.len(),
            owner_entry(entries@.skip(i as int), addr) == owner_entry(entries@, addr),
        decreases entries@.len() - i,
    {
        assert(entries@.skip(i as int).drop_first() =~= entries@.skip(i + 1));
        if let Some(own) = entry_addr(&entries[i]) {
            if own == addr {
                return match &entries[i].name {
                    None => None,
                    Some(name) => {
                        let base = strip_suffix(name.as_str());
                        if base.as_str().is_empty() {
                            None
                        } else {
                            Some(base)
                        }
                    },
                };
            }
        }
        i = i + 1;
    }
    None
}

/// The first IPv4 address bound to interface `name`.
pub fn v4_addr_of(entries: &[IfEntry], name: &str) -> (addr: Option<Ipv4Addr>)
    ensures
        addr == first_v4(entries@, name@),
{
    let mut i: usize = 0;
    assert(entries@.skip(0) =~= entries@);
    while i < entries.len()
        invariant
            i <= entries@.len(),
            first_v4(entries@.skip(i as int), name@) == first_v4(entries@, name@),
        decreases entries@.len() - i,
    {
        assert(entries@.skip(i as int).drop_first() =~= entries@.skip(i + 1));
        if let Some(IpAddr::V4(v4)) = entry_addr(&entries[i]) {
            if entry_matches(&entries[i], name) {
                return Some(v4);
            }
        }
        i = i + 1;
    }
    None
}

fn check_name(name: &str) -> (verdict: Result<(), SelectorError>)
    ensures
        verdict is Ok <==> name_fault(name@) is None,
        verdict matches Err(error) ==> name_fault(name@) == Some(error@),
{
    if name.is_empty() {
        return Err(SelectorError::EmptyName);
    }
    let chars = chars_of(name);
    let mut i: usize = 0;
    while i < chars.len()
        invariant
            i <= chars@.len(),
            chars@ == name@,
            name@.len() > 0,
            forall|j: int| 0 <= j < i ==> chars@[j] != '\0',
        decreases chars@.len() - i,
    {
        if chars[i] == '\0' {
            return Err(SelectorError::NulInName);
        }
        i = i + 1;
    }
    Ok(())
}

impl InterfaceSelector {
    /// What `v4_addr` returns.
    pub open spec fn v4_addr_for(self, entries: Seq<IfEntry>) -> Result<Ipv4Addr, SelectorFault> {
        match self {
            InterfaceSelector::Addr(IpAddr::V4(v4)) => Ok(v4),
            InterfaceSelector::Addr(addr) => match owner(entries, addr) {
                None => Err(SelectorFault::NoOwner),
                Some(name) => match first_v4(entries, name) {
                    None => Err(SelectorFault::OwnerWithoutV4 { name }),
                    Some(v4) => Ok(v4),
                },
            },
            InterfaceSelector::Name(name) => match first_v4(entries, name@) {
                None => Err(SelectorFault::NoV4Address { name: name@ }),
                Some(v4) => Ok(v4),
            },
        }
    }

    /// What `lookup_name` returns.
    pub open spec fn name_for(self, entries: Seq<IfEntry>) -> Result<
        Seq<char>,
        SelectorFault,
    > {
        let name = match self {
            InterfaceSelector::Name(name) => Some(name@),
            InterfaceSelector::Addr(addr) => owner(entries, addr),
        };
        match name {
            None => Err(SelectorFault::NoOwner),
            Some(name) => match name_fault(name) {
                None => Ok(name),
                Some(fault) => Err(fault),
            },
        }
    }

    /// What `index` returns.
    pub open spec fn index_for(self, entries: Seq<IfEntry>, answer: u32) -> Result<
        u32,
        SelectorFault,
    > {
        match self.name_for(entries) {
            Err(fault) => Err(fault),
            Ok(name) => if answer == 0 {
                Err(SelectorFault::NoSuchInterface { name })
            } else {
                Ok(answer)
            },
        }
    }

    /// The selector that `input` stands for: the address that it was read as,
    /// or else the interface of that name.
    pub fn from_input(input: &str, parsed: Option<IpAddr>) -> (selector: InterfaceSelector)
        ensures
            match parsed {
                Some(addr) => selector == InterfaceSelector::Addr(addr),
                None => selector is Name && selector->Name_0@ == input@,
            },
    {
        match parsed {
            Some(addr) => InterfaceSelector::Addr(addr),
            None => InterfaceSelector::Name(input.to_owned()),
        }
    }

    /// Whether `v4_addr` consults the interface list. An IPv4 address stands
    /// for itself.
    pub fn v4_addr_needs_entries(&self) -> (yes: bool)
        ensures
            yes == !(self matches InterfaceSelector::Addr(IpAddr::V4(_))),
    {
        match self {
            InterfaceSelector::Addr(IpAddr::V4(_)) => false,
            _ => true,
        }
    }

    /// Whether `lookup_name` and `index` consult the interface list. A name
    /// stands for itself.
    pub fn index_needs_entries(&self) -> (yes: bool)
        ensures
            yes == (self is Addr),
    {
        match self {
            InterfaceSelector::Addr(_) => true,
            InterfaceSelector::Name(_) => false,
        }
    }

    /// The interface's IPv4 address, given the interface list `entries`. A
    /// selector that already is an IPv4 address is returned as it is.
    pub fn v4_addr(&self, entries: &[IfEntry]) -> (addr: Result<Ipv4Addr, SelectorError>)
        ensures
            match addr {
                Ok(v4) => self.v4_addr_for(entries@) == Ok::<Ipv4Addr, SelectorFault>(v4),
                Err(error) => self.v4_addr_for(entries@) == Err::<Ipv4Addr, SelectorFault>(
                    error@,
                ),
            },
    {
        match self {
            InterfaceSelector::Addr(IpAddr::V4(v4)) => Ok(*v4),
            InterfaceSelector::Addr(addr) => match owner_name(entries, *addr) {
                None => Err(SelectorError::NoOwner),
                Some(name) => match v4_addr_of(entries, name.as_str()) {
                    None => Err(SelectorError::OwnerWithoutV4 { name }),
                    Some(v4) => Ok(v4),
                },
            },
            InterfaceSelector::Name(name) => match v4_addr_of(entries, name.as_str()) {
                None => Err(SelectorError::NoV4Address { name: name.clone() }),
                Some(v4) => Ok(v4),
            },
        }
    }

    /// The name under which the system is asked for the interface's index,
    /// given the interface list `entries`.
    pub fn lookup_name(&self, entries: &[IfEntry]) -> (name: Result<String, SelectorError>)
        ensures
            match name {
                Ok(name) => self.name_for(entries@) == Ok::<Seq<char>, SelectorFault>(
                    name@,
                ),
                Err(error) => self.name_for(entries@) == Err::<Seq<char>, SelectorFault>(
                    error@,
                ),
            },
    {
        let name = match self {
            InterfaceSelector::Name(name) => name.clone(),
            InterfaceSelector::Addr(addr) => match owner_name(entries, *addr) {
                None => {
                    return Err(SelectorError::NoOwner);
                },
                Some(name) => name,
            },
        };
        match check_name(name.as_str()) {
            Ok(()) => Ok(name),
            Err(error) => Err(error),
        }
    }

    /// The interface's index, given the interface list `entries` and the
    /// system's `answer` when it was asked for `lookup_name`: 0 if it knows no
    /// such interface.
    pub fn index(&self, entries: &[IfEntry], answer: u32) -> (index: Result<u32, SelectorError>)
        ensures
            match index {
                Ok(index) => self.index_for(entries@, answer) == Ok::<u32, SelectorFault>(index),
                Err(error) => self.index_for(entries@, answer) == Err::<u32, SelectorFault>(
                    error@,
                ),
            },
    {
        match self.lookup_name(entries) {
            Err(error) => Err(error),
            Ok(name) => if answer == 0 {
                Err(SelectorError::NoSuchInterface { name })
            } else {
                Ok(answer)
            },
        }
    }
}

impl SelectorError {
    /// The error in words. `detail` is the selector as text where the
    /// selector is an address, and the system's own words where it knew no
    /// such interface.
    pub fn message(&self, detail: &str) -> (text: String)
        ensures
            text@ == self@.text(detail@),
    {
        match self {
            SelectorError::NoOwner => quoted("no interface has address `", detail, "`"),
            SelectorError::NoV4Address { name } => quoted(
                "interface `",
                name.as_str(),
                "` has no IPv4 address",
            ),
            SelectorError::OwnerWithoutV4 { name } => {
                let mut text = quoted("selector `", detail, "` resolved to interface `");
                text.append(name.as_str());
                text.append("`");
                text
            },
            SelectorError::EmptyName => "interface name is empty".to_owned(),
            SelectorError::NulInName => "interface name contains NUL".to_owned(),
            SelectorError::NoSuchInterface { name } => {
                let mut text = quoted("no interface named `", name.as_str(), "`: ");
                text.append(detail);
                text
            },
        }
    }

    /// What lies behind the error, if that is worth telling apart.
    pub fn cause(&self) -> (cause: Option<SelectorError>)
        ensures
            match self@ {
                SelectorFault::OwnerWithoutV4 { name } => cause matches Some(error) && error@ == (
                SelectorFault::NoV4Address { name }),
                _ => cause is None,
            },
    {
        match self {
            SelectorError::OwnerWithoutV4 { name } => Some(
                SelectorError::NoV4Address { name: name.clone() },
            ),
            _ => None,
        }
    }
}

impl SelectorFault {
    pub open spec fn text(self, detail: Seq<char>) -> Seq<char> {
        match self {
            SelectorFault::NoOwner => "no interface has address `"@ + detail + "`"@,
            SelectorFault::NoV4Address { name } => "interface `"@ + name
                + "` has no IPv4 address"@,
            SelectorFault::OwnerWithoutV4 { name } => "selector `"@ + detail
                + "` resolved to interface `"@ + name + "`"@,
            SelectorFault::EmptyName => "interface name is empty"@,
            SelectorFault::NulInName => "interface name contains NUL"@,
            SelectorFault::NoSuchInterface { name } => "no interface named `"@ + name + "`: "@
                + detail,
        }
    }
}

proof fn lemma_base_prefix(name: Seq<char>)
    ensures
        base_name(name).is_prefix_of(name),
        name.len() > base_name(name).len() ==> name[base_name(name).len() as int] == ':',
        !base_name(name).contains(':'),
    decreases name.len(),
{
    if name.len() > 0 && name[0] != ':' {
        let rest = name.drop_first();
        lemma_base_prefix(rest);
        let base = base_name(name);
        assert(base =~= name.subrange(0, base.len() as int)) by {
            assert(base_name(rest) =~= rest.subrange(0, base_name(rest).len() as int));
            assert forall|i: int| 0 <= i < base.len() implies base[i] == name[i] by {
                if i > 0 {
                    assert(base[i] == base_name(rest)[i - 1]);
                    assert(rest.subrange(0, base_name(rest).len() as int)[i - 1] == rest[i - 1]);
                }
            }
        }
        assert forall|i: int| 0 <= i < base.len() implies base[i] != ':' by {
            if i > 0 {
                assert(base_name(rest).contains(base_name(rest)[i - 1]));
            }
        }
    } else {
        assert(name.subrange(0, 0) =~= Seq::empty());
    }
}

/// The name that an address resolves to is that of an interface proper, with
/// no suffix, and the entry that the address was found in belongs to it.
pub proof fn law_owner_is_base_interface(entries: Seq<IfEntry>, addr: IpAddr)
    requires
        owner(entries, addr) is Some,
    ensures
        owner(entries, addr)->0.len() > 0,
        !owner(entries, addr)->0.contains(':'),
        owner_entry(entries, addr) is Some,
        owner_entry(entries, addr)->0.addr() == Some(addr),
        owner_entry(entries, addr)->0.belongs_to(owner(entries, addr)->0),
{
    lemma_owner_has_addr(entries, addr);
    lemma_base_prefix(owner_entry(entries, addr)->0.name->0@);
}

proof fn lemma_owner_has_addr(entries: Seq<IfEntry>, addr: IpAddr)
    ensures
        owner_entry(entries, addr) matches Some(entry) ==> entry.addr() == Some(addr),
    decreases entries.len(),
{
    if entries.len() > 0 {
        lemma_owner_has_addr(entries.drop_first(), addr);
    }
}

/// An IPv4 address that a name resolves to is bound to that interface.
pub proof fn law_v4_address_is_bound(entries: Seq<IfEntry>, name: Seq<char>)
    ensures
        first_v4(entries, name) matches Some(v4) ==> exists|i: int|
            0 <= i < entries.len() && (#[trigger] entries[i]).belongs_to(name) && entries[i].addr()
                == Some(IpAddr::V4(v4)),
        first_v4(entries, name) is None ==> forall|i: int|
            0 <= i < entries.len() && (#[trigger] entries[i]).belongs_to(name)
                ==> !(entries[i].addr() matches Some(IpAddr::V4(_))),
    decreases entries.len(),
{
    if entries.len() > 0 {
        let rest = entries.drop_first();
        law_v4_address_is_bound(rest, name);
        assert(forall|i: int| 0 <= i < rest.len() ==> #[trigger] rest[i] == entries[i + 1]);
        assert forall|i: int|
            first_v4(entries, name) is None && 0 <= i < entries.len() && (
            #[trigger] entries[i]).belongs_to(name) implies !(entries[i].addr() matches Some(
            IpAddr::V4(_),
        )) by {
            if i > 0 {
                assert(rest[i - 1] == entries[i]);
            }
        }
        if let Some(v4) = first_v4(entries, name) {
            if first_v4(rest, name) is Some && !(entries[0].belongs_to(name) && (
            entries[0].addr() matches Some(IpAddr::V4(_)))) {
                let i = choose|i: int|
                    0 <= i < rest.len() && (#[trigger] rest[i]).belongs_to(name) && rest[i].addr()
                        == Some(IpAddr::V4(v4));
                assert(entries[i + 1].belongs_to(name));
            } else {
                assert(entries[0].belongs_to(name));
            }
        }
    }
}

/// A selector that is an IPv4 address, or a name whose index is sought,
/// resolves alike whatever interfaces there are.
pub proof fn law_plain_selectors_ignore_entries(
    selector: InterfaceSelector,
    a: Seq<IfEntry>,
    b: Seq<IfEntry>,
)
    ensures
        selector matches InterfaceSelector::Addr(IpAddr::V4(v4)) ==> selector.v4_addr_for(a)
            == selector.v4_addr_for(b),
        selector is Name ==> selector.name_for(a) == selector.name_for(b),
{
}

/// The address of an entry has exactly the bytes that the entry has, in the
/// family of the entry; entries of other families, and those without, have none.
pub proof fn law_entry_addr_has_the_entrys_bytes(entry: IfEntry)
    ensures
        entry.sockaddr matches Some(IfSockaddr::Inet(octets)) ==> (entry.addr() matches Some(
            IpAddr::V4(v4),
        ) && v4.spec_octets() == octets@),
        entry.sockaddr matches Some(IfSockaddr::Inet6(octets)) ==> (entry.addr() matches Some(
            IpAddr::V6(v6),
        ) && v6.spec_octets() == octets@),
        !(entry.sockaddr matches Some(IfSockaddr::Inet(_))) && !(entry.sockaddr matches Some(
            IfSockaddr::Inet6(_),
        )) ==> entry.addr() is None,
{
    if let Some(IfSockaddr::Inet(octets)) = entry.sockaddr {
        crate::addr::law_address_of_octets_has_those_octets(octets@);
    }
    if let Some(IfSockaddr::Inet6(octets)) = entry.sockaddr {
        crate::addr::law_address_of_octets_has_those_octets(octets@);
    }
}

/// An entry belongs to an interface exactly if it has its name, or its name, a
/// colon, and anything behind it. Nothing belongs to an interface without a name.
pub proof fn law_logical_interfaces_belong(entry: IfEntry, name: Seq<char>)
    ensures
        entry.belongs_to(name) <==> name.len() > 0 && (entry.name matches Some(own) && (own@ == name
            || exists|rest: Seq<char>| own@ == #[trigger] (name + seq![':'] + rest))),
{
    if let Some(text) = entry.name {
        let own = text@;
        if entry.belongs_to(name) {
            assert(own.subrange(0, name.len() as int) =~= name);
            if own.len() > name.len() {
                let rest = own.skip(name.len() as int + 1);
                assert(own =~= name + seq![':'] + rest);
            } else {
                assert(own =~= name);
            }
        }
        if name.len() > 0 && own == name {
            assert(own.subrange(0, name.len() as int) =~= name);
        }
        if name.len() > 0 && exists|rest: Seq<char>| own == #[trigger] (name + seq![':'] + rest) {
            let rest = choose|rest: Seq<char>| own == #[trigger] (name + seq![':'] + rest);
            assert(own.subrange(0, name.len() as int) =~= name);
            assert(own[name.len() as int] == ':');
        }
    }
}

/// The base of a name is the name itself if there is no colon in it, and
/// otherwise what comes before the first colon.
pub proof fn law_base_name_ends_at_the_colon(name: Seq<char>)
    ensures
        !base_name(name).contains(':'),
        base_name(name) == name || exists|rest: Seq<char>|
            name == #[trigger] (base_name(name) + seq![':'] + rest),
{
    lemma_base_prefix(name);
    let base = base_name(name);
    assert(name.subrange(0, base.len() as int) =~= base);
    if name.len() > base.len() {
        let rest = name.skip(base.len() as int + 1);
        assert(name =~= base + seq![':'] + rest);
    } else {
        assert(base =~= name);
    }
}

/// The entry that an address is found in is the first that has it, and it is
/// found if any has it. It gives no owner only if it has no name, or a name with
/// nothing before the colon.
pub proof fn law_owner_is_the_first_with_the_address(entries: Seq<IfEntry>, addr: IpAddr)
    ensures
        owner_entry(entries, addr) matches Some(entry) ==> exists|i: int|
            {
                &&& 0 <= i < entries.len()
                &&& #[trigger] entries[i] == entry
                &&& entry.addr() == Some(addr)
                &&& forall|j: int| 0 <= j < i ==> (#[trigger] entries[j]).addr() != Some(addr)
            },
        owner_entry(entries, addr) is None <==> forall|i: int|
            0 <= i < entries.len() ==> (#[trigger] entries[i]).addr() != Some(addr),
        owner(entries, addr) is Some <==> (owner_entry(entries, addr) matches Some(entry)
            && entry.name is Some && base_name(entry.name->0@).len() > 0),
        owner(entries, addr) matches Some(name) ==> name == base_name(
            owner_entry(entries, addr)->0.name->0@,
        ),
    decreases entries.len(),
{
    if entries.len() > 0 && entries[0].addr() != Some(addr) {
        let rest = entries.drop_first();
        law_owner_is_the_first_with_the_address(rest, addr);
        if let Some(entry) = owner_entry(rest, addr) {
            let i = choose|i: int|
                {
                    &&& 0 <= i < rest.len()
                    &&& #[trigger] rest[i] == entry
                    &&& entry.addr() == Some(addr)
                    &&& forall|j: int| 0 <= j < i ==> (#[trigger] rest[j]).addr() != Some(addr)
                };
            assert(entries[i + 1] == entry);
            assert forall|j: int| 0 <= j < i + 1 implies (#[trigger] entries[j]).addr() != Some(
                addr,
            ) by {
                if j > 0 {
                    assert(rest[j - 1] == entries[j]);
                }
            }
        } else {
            assert forall|j: int| 0 <= j < entries.len() implies (#[trigger] entries[j]).addr()
                != Some(addr) by {
                if j > 0 {
                    assert(rest[j - 1] == entries[j]);
                }
            }
        }
    } else if entries.len() > 0 {
        assert(entries[0].addr() == Some(addr));
    }
}

/// The IPv4 address of an interface is that of the first entry that belongs to it
/// and has one.
pub proof fn law_first_v4_is_first(entries: Seq<IfEntry>, name: Seq<char>)
    ensures
        first_v4(entries, name) matches Some(v4) ==> exists|i: int|
            {
                &&& 0 <= i < entries.len()
                &&& (#[trigger] entries[i]).belongs_to(name)
                &&& entries[i].addr() == Some(IpAddr::V4(v4))
                &&& forall|j: int|
                    0 <= j < i ==> !((#[trigger] entries[j]).belongs_to(name) && (
                    entries[j].addr() matches Some(IpAddr::V4(_))))
            },
    decreases entries.len(),
{
    if entries.len() > 0 {
        let rest = entries.drop_first();
        if entries[0].belongs_to(name) && (entries[0].addr() matches Some(IpAddr::V4(_))) {
            assert(entries[0].belongs_to(name));
        } else {
            law_first_v4_is_first(rest, name);
            if let Some(v4) = first_v4(rest, name) {
                let i = choose|i: int|
                    {
                        &&& 0 <= i < rest.len()
                        &&& (#[trigger] rest[i]).belongs_to(name)
                        &&& rest[i].addr() == Some(IpAddr::V4(v4))
                        &&& forall|j: int|
                            0 <= j < i ==> !((#[trigger] rest[j]).belongs_to(name) && (
                            rest[j].addr() matches Some(IpAddr::V4(_))))
                    };
                assert(entries[i + 1] == rest[i]);
                assert forall|j: int| 0 <= j < i + 1 implies !((
                #[trigger] entries[j]).belongs_to(name) && (entries[j].addr() matches Some(
                    IpAddr::V4(_),
                ))) by {
                    if j > 0 {
                        assert(rest[j - 1] == entries[j]);
                    }
                }
            }
        }
    }
}

/// For an IPv4 group an IPv4 address stands for itself, an IPv6 address for the
/// first IPv4 address of its owner, and a name for the first of the interface of
/// that name.
pub proof fn law_selectors_resolve_to_v4(selector: InterfaceSelector, entries: Seq<IfEntry>)
    ensures
        selector matches InterfaceSelector::Addr(IpAddr::V4(v4)) ==> (selector.v4_addr_for(entries)
            matches Ok(found) && found == v4),
        selector matches InterfaceSelector::Addr(addr) ==> addr is V6 ==> match owner(
            entries,
            addr,
        ) {
            None => selector.v4_addr_for(entries) matches Err(fault) && fault is NoOwner,
            Some(name) => match first_v4(entries, name) {
                None => selector.v4_addr_for(entries) matches Err(SelectorFault::OwnerWithoutV4 {
                    name: told,
                }) && told == name,
                Some(v4) => selector.v4_addr_for(entries) matches Ok(found) && found == v4,
            },
        },
        selector matches InterfaceSelector::Name(name) ==> match first_v4(entries, name@) {
            None => selector.v4_addr_for(entries) matches Err(SelectorFault::NoV4Address {
                name: told,
            }) && told == name@,
            Some(v4) => selector.v4_addr_for(entries) matches Ok(found) && found == v4,
        },
{
}

/// For an IPv6 group a selector resolves to the system's answer for the name, or
/// for the name of the address's owner, unless the name is empty or has a NUL in
/// it, or the system knows no such interface.
pub proof fn law_selectors_resolve_to_index(
    selector: InterfaceSelector,
    entries: Seq<IfEntry>,
    answer: u32,
)
    ensures
        ({
            let name = match selector {
                InterfaceSelector::Name(name) => Some(name@),
                InterfaceSelector::Addr(addr) => owner(entries, addr),
            };
            let asked = selector.name_for(entries);
            let index = selector.index_for(entries, answer);
            match name {
                None => asked matches Err(fault) && fault is NoOwner,
                Some(name) => {
                    &&& asked matches Ok(text) ==> text == name
                    &&& (asked matches Err(fault) && fault is EmptyName) <==> name.len() == 0
                    &&& (asked matches Err(fault) && fault is NulInName) <==> has_nul(name)
                    &&& asked is Ok <==> name.len() > 0 && !has_nul(name)
                },
            }
        }),
        ({
            let asked = selector.name_for(entries);
            let index = selector.index_for(entries, answer);
            match asked {
                Err(fault) => index matches Err(other) && other == fault,
                Ok(name) => if answer == 0 {
                    index matches Err(SelectorFault::NoSuchInterface { name: told }) && told == name
                } else {
                    index matches Ok(found) && found == answer
                },
            }
        }),
{
    let name = match selector {
        InterfaceSelector::Name(name) => name@,
        InterfaceSelector::Addr(addr) => match owner(entries, addr) {
            Some(name) => name,
            None => Seq::empty(),
        },
    };
    if has_nul(name) {
        let i = choose|i: int| 0 <= i < name.len() && #[trigger] name[i] == '\0';
        assert(name.contains(name[i]));
    }
    if name.contains('\0') {
        let i = choose|i: int| 0 <= i < name.len() && name[i] == '\0';
        assert(name[i] == '\0');
    }
}

/// Whether there is a NUL anywhere in `name`.
pub open spec fn has_nul(name: Seq<char>) -> bool {
    exists|i: int| 0 <= i < name.len() && #[trigger] name[i] == '\0'
}

/// What is said of a selector that does not resolve, word for word: the address
/// or the name that it is about is quoted, and the system's own words come last.
pub proof fn law_messages_quote_the_selector(detail: Seq<char>, name: Seq<char>)
    ensures
        SelectorFault::NoOwner.text(detail) == "no interface has address `"@ + detail + "`"@,
        (SelectorFault::NoV4Address { name }).text(detail) == "interface `"@ + name
            + "` has no IPv4 address"@,
        (SelectorFault::OwnerWithoutV4 { name }).text(detail) == "selector `"@ + detail
            + "` resolved to interface `"@ + name + "`"@,
        SelectorFault::EmptyName.text(detail) == "interface name is empty"@,
        SelectorFault::NulInName.text(detail) == "interface name contains NUL"@,
        (SelectorFault::NoSuchInterface { name }).text(detail) == "no interface named `"@ + name
            + "`: "@ + detail,
{
}

} // verus!
