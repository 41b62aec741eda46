use muffin::addr::{IpAddr, Ipv4Addr, Ipv6Addr};
use muffin::iface::{
    entry_addr, entry_matches, owner_name, v4_addr_of, IfEntry, IfSockaddr, InterfaceSelector,
    SelectorError,
};

const LINK_LOCAL: [u8; 16] = [0xfe, 0x80, 0, 0, 0, 0, 0, 0, 0, 0, 0, 0, 0, 0, 0, 1];

fn entry(name: &str, sockaddr: Option<IfSockaddr>) -> IfEntry {
    IfEntry { name: Some(name.to_string()), sockaddr }
}

fn entries() -> Vec<IfEntry> {
    vec![
        entry("lo0", Some(IfSockaddr::Other)),
        entry("lo0", Some(IfSockaddr::Inet([127, 0, 0, 1]))),
        entry("net0", None),
        entry("net0", Some(IfSockaddr::Inet6(LINK_LOCAL))),
        entry("net01", Some(IfSockaddr::Inet([10, 0, 1, 1]))),
        entry("net0:1", Some(IfSockaddr::Inet([10, 0, 0, 1]))),
        entry("net0", Some(IfSockaddr::Inet([10, 0, 0, 2]))),
        entry("net1", Some(IfSockaddr::Inet6(LINK_LOCAL))),
        IfEntry { name: None, sockaddr: Some(IfSockaddr::Inet([10, 0, 9, 9])) },
        entry(":1", Some(IfSockaddr::Inet([10, 0, 8, 8]))),
        entry("net2:3", Some(IfSockaddr::Inet6([0xfd; 16]))),
    ]
}

fn link_local() -> IpAddr {
    IpAddr::V6(Ipv6Addr::new(0xfe80, 0, 0, 0, 0, 0, 0, 1))
}

fn v4(a: u8, b: u8, c: u8, d: u8) -> IpAddr {
    IpAddr::V4(Ipv4Addr::new(a, b, c, d))
}

#[test]
fn input_is_an_address_or_a_name() {
    let addr = InterfaceSelector::from_input("10.0.0.1", Some(v4(10, 0, 0, 1)));
    assert!(matches!(addr, InterfaceSelector::Addr(a) if a == v4(10, 0, 0, 1)));
    let name = InterfaceSelector::from_input("net0", None);
    assert!(matches!(name, InterfaceSelector::Name(n) if n == "net0"));
}

#[test]
fn entry_addresses() {
    let all = entries();
    assert_eq!(entry_addr(&all[0]), None);
    assert_eq!(entry_addr(&all[1]), Some(v4(127, 0, 0, 1)));
    assert_eq!(entry_addr(&all[2]), None);
    assert_eq!(entry_addr(&all[3]), Some(link_local()));
}

#[test]
fn logical_interfaces_belong_to_their_interface() {
    assert!(entry_matches(&entry("net0", None), "net0"));
    assert!(entry_matches(&entry("net0:1", None), "net0"));
    assert!(!entry_matches(&entry("net01", None), "net0"));
    assert!(!entry_matches(&entry("net", None), "net0"));
    assert!(!entry_matches(&entry("net0", None), ""));
    assert!(!entry_matches(&entry("", None), ""));
    assert!(!entry_matches(&IfEntry { name: None, sockaddr: None }, "net0"));
}

#[test]
fn owners_are_base_interfaces() {
    let all = entries();
    assert_eq!(owner_name(&all, v4(10, 0, 0, 1)), Some("net0".to_string()));
    // on two interfaces: the first entry decides
    assert_eq!(owner_name(&all, link_local()), Some("net0".to_string()));
    // no such address, an entry without a name, an empty base name
    assert_eq!(owner_name(&all, v4(10, 0, 0, 3)), None);
    assert_eq!(owner_name(&all, v4(10, 0, 9, 9)), None);
    assert_eq!(owner_name(&all, v4(10, 0, 8, 8)), None);
}

#[test]
fn first_v4_address_of_an_interface() {
    let all = entries();
    assert_eq!(v4_addr_of(&all, "net0"), Some(Ipv4Addr::new(10, 0, 0, 1)));
    assert_eq!(v4_addr_of(&all, "net1"), None);
}

#[test]
fn v4_address_of_a_selector() {
    let all = entries();
    let plain = InterfaceSelector::Addr(v4(192, 0, 2, 1));
    assert!(!plain.v4_addr_needs_entries());
    assert_eq!(plain.v4_addr(&[]).unwrap(), Ipv4Addr::new(192, 0, 2, 1));

    let by_addr = InterfaceSelector::Addr(link_local());
    assert!(by_addr.v4_addr_needs_entries());
    assert_eq!(by_addr.v4_addr(&all).unwrap(), Ipv4Addr::new(10, 0, 0, 1));

    let by_name = InterfaceSelector::Name("net0".to_string());
    assert!(by_name.v4_addr_needs_entries());
    assert_eq!(by_name.v4_addr(&all).unwrap(), Ipv4Addr::new(10, 0, 0, 1));
}

#[test]
fn selectors_without_a_v4_address() {
    let all = entries();
    let error = InterfaceSelector::Name("net1".to_string()).v4_addr(&all).unwrap_err();
    assert_eq!(error.message(""), "interface `net1` has no IPv4 address");
    assert!(error.cause().is_none());

    let v6 = IpAddr::V6(Ipv6Addr::from_octets([0xfd; 16]));
    let error = InterfaceSelector::Addr(v6).v4_addr(&all).unwrap_err();
    assert_eq!(error.message("fdfd::"), "selector `fdfd::` resolved to interface `net2`");
    assert_eq!(error.cause().unwrap().message(""), "interface `net2` has no IPv4 address");

    let other = IpAddr::V6(Ipv6Addr::from_octets([0xfc; 16]));
    let error = InterfaceSelector::Addr(other).v4_addr(&all).unwrap_err();
    assert!(matches!(error, SelectorError::NoOwner));
    assert_eq!(error.message("fcfc::"), "no interface has address `fcfc::`");
}

#[test]
fn index_of_a_selector() {
    let all = entries();
    let by_name = InterfaceSelector::Name("net7".to_string());
    assert!(!by_name.index_needs_entries());
    assert_eq!(by_name.lookup_name(&[]).unwrap(), "net7");
    assert_eq!(by_name.index(&[], 3).unwrap(), 3);

    let by_addr = InterfaceSelector::Addr(v4(10, 0, 0, 1));
    assert!(by_addr.index_needs_entries());
    assert_eq!(by_addr.lookup_name(&all).unwrap(), "net0");
    assert_eq!(by_addr.index(&all, 2).unwrap(), 2);
}

#[test]
fn selectors_without_an_index() {
    let empty = InterfaceSelector::Name(String::new());
    assert_eq!(empty.index(&[], 1).unwrap_err().message(""), "interface name is empty");

    let nul = InterfaceSelector::Name("net\0".to_string());
    assert!(matches!(nul.lookup_name(&[]), Err(SelectorError::NulInName)));
    assert_eq!(nul.index(&[], 1).unwrap_err().message(""), "interface name contains NUL");

    let unknown = InterfaceSelector::Name("net9".to_string());
    assert_eq!(
        unknown.index(&[], 0).unwrap_err().message("No such device (os error 19)"),
        "no interface named `net9`: No such device (os error 19)"
    );

    let nowhere = InterfaceSelector::Addr(v4(10, 9, 9, 9));
    assert!(matches!(nowhere.index(&entries(), 1), Err(SelectorError::NoOwner)));
}
