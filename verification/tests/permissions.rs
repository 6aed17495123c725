use axum_health::address::{parse_ip, IpAddr, SocketAddr};
use axum_health::config::{PluginPermissions, TcpPermission};
use axum_health::permission::{
    cidr_contains, parse_cidr, resolve_tcp_permissions, HostLookup, PermissionResolution,
    TcpPermissionRule,
};
use axum_health::plugin::{address_allowed, plugin_sandbox, SocketUse};

fn socket(text: &str) -> SocketAddr {
    let (address, port) = text.rsplit_once(':').unwrap();
    let address = address.trim_start_matches('[').trim_end_matches(']');
    SocketAddr::new(ip(address), port.parse().unwrap())
}

fn ip(text: &str) -> IpAddr {
    parse_ip(text).unwrap()
}

fn cidr(text: &str, ports: Vec<u16>) -> TcpPermission {
    TcpPermission {
        host: None,
        cidr: Some(text.to_string()),
        ports,
    }
}

fn host(text: &str, ports: Vec<u16>) -> TcpPermission {
    TcpPermission {
        host: Some(text.to_string()),
        cidr: None,
        ports,
    }
}

fn rules(permissions: &[TcpPermission], lookups: &[HostLookup]) -> Vec<TcpPermissionRule> {
    match resolve_tcp_permissions(permissions, lookups).unwrap() {
        PermissionResolution::Rules(rules) => rules,
        PermissionResolution::Lookup(host) => panic!("{host} was not looked up"),
    }
}

fn refusal(permissions: &[TcpPermission], lookups: &[HostLookup]) -> String {
    match resolve_tcp_permissions(permissions, lookups) {
        Err(reason) => reason,
        Ok(_) => panic!("not refused"),
    }
}

#[test]
fn tcp_permissions_allow_only_configured_cidr_and_port() {
    let rules = rules(
        &[TcpPermission {
            host: None,
            cidr: Some("10.0.0.0/8".to_string()),
            ports: vec![5432],
        }],
        &[],
    );

    assert!(rules[0].allows(socket("10.20.30.40:5432")));
    assert!(!rules[0].allows(socket("10.20.30.40:5433")));
    assert!(!rules[0].allows(socket("192.168.1.10:5432")));
}

#[test]
fn ranges_of_either_family_are_read() {
    assert_eq!(parse_cidr("10.0.0.0/8"), Ok((ip("10.0.0.0"), 8)));
    assert_eq!(parse_cidr("10.0.0.0/+8"), Ok((ip("10.0.0.0"), 8)));
    assert_eq!(parse_cidr("10.0.0.0/032"), Ok((ip("10.0.0.0"), 32)));
    assert_eq!(parse_cidr("2001:db8::/32"), Ok((ip("2001:db8::"), 32)));
    assert_eq!(parse_cidr("::/128"), Ok((ip("::"), 128)));
    assert_eq!(parse_cidr("::/0"), Ok((ip("::"), 0)));
}

#[test]
fn written_ranges_are_read_back_with_all_their_bits() {
    for (text, network, prefix) in [
        ("10.1.2.3/8", IpAddr::V4(0x0a01_0203), 8),
        ("0.0.0.0/0", IpAddr::V4(0), 0),
        ("255.255.255.255/32", IpAddr::V4(u32::MAX), 32),
        ("::/0", IpAddr::V6(0), 0),
        ("::1/128", IpAddr::V6(1), 128),
        ("::ffff:192.0.2.128/96", IpAddr::V6(0xffff_c000_0280), 96),
        (
            "2001:db8::1:0:0:1/64",
            IpAddr::V6(0x2001_0db8_0000_0000_0001_0000_0000_0001),
            64,
        ),
        (
            "1:0:3:4:5:6:7:8/127",
            IpAddr::V6(0x0001_0000_0003_0004_0005_0006_0007_0008),
            127,
        ),
        (
            "ffff:ffff:ffff:ffff:ffff:ffff:ffff:ffff/100",
            IpAddr::V6(u128::MAX),
            100,
        ),
    ] {
        assert_eq!(parse_cidr(text), Ok((network, prefix)), "{text}");
    }
}

#[test]
fn invalid_ranges_are_refused() {
    assert_eq!(
        parse_cidr("10.0.0.0"),
        Err("TCP permission CIDR must include a prefix: 10.0.0.0".to_string())
    );
    assert_eq!(
        parse_cidr("10.0.0/8"),
        Err("invalid TCP permission CIDR 10.0.0/8: invalid IP address syntax".to_string())
    );
    for prefix in ["", "+", "-1", "x", " 8", "256", "99x", "999x"] {
        let text = format!("10.0.0.0/{prefix}");
        let reason = prefix.parse::<u8>().unwrap_err();
        assert_eq!(
            parse_cidr(&text),
            Err(format!("invalid TCP permission prefix {text}: {reason}"))
        );
    }
    assert_eq!(
        parse_cidr("10.0.0.0/8/8"),
        Err("invalid TCP permission prefix 10.0.0.0/8/8: invalid digit found in string".to_string())
    );
    assert_eq!(
        parse_cidr("10.0.0.0/33"),
        Err("TCP permission prefix is out of range: 10.0.0.0/33".to_string())
    );
    assert_eq!(
        parse_cidr("::/129"),
        Err("TCP permission prefix is out of range: ::/129".to_string())
    );
}

#[test]
fn prefixes_select_leading_bits() {
    assert!(cidr_contains(ip("10.0.0.0"), 8, ip("10.255.0.1")));
    assert!(!cidr_contains(ip("10.0.0.0"), 8, ip("11.0.0.0")));
    assert!(cidr_contains(ip("192.168.1.129"), 25, ip("192.168.1.200")));
    assert!(!cidr_contains(ip("192.168.1.129"), 25, ip("192.168.1.127")));
    assert!(cidr_contains(ip("2001:db8::"), 32, ip("2001:db8:1::1")));
    assert!(!cidr_contains(ip("2001:db8::"), 33, ip("2001:db8:8000::")));
    assert!(cidr_contains(ip("fe80::"), 10, ip("febf::1")));
}

#[test]
fn empty_and_full_prefixes() {
    assert!(cidr_contains(ip("10.0.0.0"), 0, ip("192.168.0.1")));
    assert!(cidr_contains(ip("::"), 0, ip("ffff::ffff")));
    assert!(cidr_contains(ip("10.0.0.1"), 32, ip("10.0.0.1")));
    assert!(!cidr_contains(ip("10.0.0.1"), 32, ip("10.0.0.0")));
    assert!(cidr_contains(ip("::1"), 128, ip("::1")));
    assert!(!cidr_contains(ip("::1"), 128, ip("::")));
}

#[test]
fn shorter_prefixes_hold_more() {
    let network = ip("172.16.0.0");
    let address = ip("172.31.255.255");
    assert!(!cidr_contains(network, 13, address));
    assert!(cidr_contains(network, 12, address));
    assert!(cidr_contains(network, 11, address));
}

#[test]
fn families_do_not_mix() {
    assert!(!cidr_contains(ip("0.0.0.0"), 0, ip("::")));
    assert!(!cidr_contains(ip("::"), 0, ip("0.0.0.0")));
    assert!(!cidr_contains(ip("0.0.0.0"), 200, ip("::")));
    let rule = TcpPermissionRule::from_addresses(vec![ip("127.0.0.1")], vec![80]);
    assert!(!rule.allows(socket("[::ffff:127.0.0.1]:80")));
}

#[test]
fn hosts_are_looked_up_and_their_addresses_authorized() {
    let permissions = [host("db.example.com", vec![5432, 5433])];
    match resolve_tcp_permissions(&permissions, &[]).unwrap() {
        PermissionResolution::Lookup(host) => assert_eq!(host, "db.example.com"),
        PermissionResolution::Rules(_) => panic!("resolved without a lookup"),
    }
    let rules = rules(&permissions, &[Ok(vec![ip("192.0.2.1"), ip("2001:db8::1")])]);
    assert_eq!(rules.len(), 1);
    assert!(rules[0].allows(socket("192.0.2.1:5432")));
    assert!(rules[0].allows(socket("[2001:db8::1]:5433")));
    assert!(!rules[0].allows(socket("192.0.2.2:5432")));
    assert!(!rules[0].allows(socket("192.0.2.1:5434")));
}

#[test]
fn lookups_go_to_the_permissions_that_asked_for_them() {
    let permissions = [
        host("one", vec![1]),
        cidr("10.0.0.0/8", vec![2]),
        host("two", vec![3]),
    ];
    let one: HostLookup = Ok(vec![ip("192.0.2.1")]);
    match resolve_tcp_permissions(&permissions, &[one]).unwrap() {
        PermissionResolution::Lookup(host) => assert_eq!(host, "two"),
        PermissionResolution::Rules(_) => panic!("resolved without a lookup"),
    }
    let both = [Ok(vec![ip("192.0.2.1")]), Ok(vec![ip("192.0.2.2")])];
    let resolved = rules(&permissions, &both);
    assert_eq!(resolved.len(), 3);
    assert!(resolved[0].allows(socket("192.0.2.1:1")));
    assert!(resolved[1].allows(socket("10.1.1.1:2")));
    assert!(resolved[2].allows(socket("192.0.2.2:3")));

    let more = [
        Ok(vec![ip("192.0.2.1")]),
        Ok(vec![ip("192.0.2.2")]),
        Err("unused".to_string()),
    ];
    let again = rules(&permissions, &more);
    assert_eq!(again.len(), 3);
    assert!(again[2].allows(socket("192.0.2.2:3")));
}

#[test]
fn invalid_permissions_are_refused() {
    assert_eq!(
        refusal(&[cidr("10.0.0.0/8", vec![])], &[]),
        "TCP permission must declare at least one port"
    );
    let both = TcpPermission {
        host: Some("h".to_string()),
        cidr: Some("10.0.0.0/8".to_string()),
        ports: vec![1],
    };
    let neither = TcpPermission {
        host: None,
        cidr: None,
        ports: vec![1],
    };
    for permission in [both, neither] {
        assert_eq!(
            refusal(&[permission], &[]),
            "TCP permission must declare exactly one of host or cidr"
        );
    }
    assert_eq!(
        refusal(&[host("h", vec![1])], &[Err("no such host".to_string())]),
        "failed to resolve TCP permission host h: no such host"
    );
    assert_eq!(
        refusal(&[host("h", vec![1])], &[Ok(vec![])]),
        "TCP permission host resolved to no addresses: h"
    );
    assert_eq!(
        refusal(&[cidr("10.0.0.0", vec![1])], &[]),
        "TCP permission CIDR must include a prefix: 10.0.0.0"
    );
}

#[test]
fn the_first_invalid_permission_is_reported() {
    let permissions = [cidr("x", vec![1]), host("never-looked-up", vec![])];
    assert_eq!(
        refusal(&permissions, &[]),
        "TCP permission CIDR must include a prefix: x"
    );
}

#[test]
fn no_permissions_by_default() {
    let permissions = PluginPermissions::default();
    assert!(permissions.tcp.is_empty());
    assert!(rules(&permissions.tcp, &[]).is_empty());
    assert!(!address_allowed(&[], SocketUse::TcpConnect, socket("10.0.0.1:80")));
}

#[test]
fn plugins_only_connect_and_only_where_a_rule_allows() {
    let permissions = [cidr("10.0.0.0/8", vec![5432]), cidr("192.0.2.0/24", vec![80])];
    let rules = rules(&permissions, &[]);
    assert!(address_allowed(&rules, SocketUse::TcpConnect, socket("10.1.2.3:5432")));
    assert!(address_allowed(&rules, SocketUse::TcpConnect, socket("192.0.2.7:80")));
    assert!(!address_allowed(&rules, SocketUse::TcpConnect, socket("192.0.2.7:5432")));
    for usage in [
        SocketUse::TcpBind,
        SocketUse::UdpBind,
        SocketUse::UdpConnect,
        SocketUse::UdpOutgoingDatagram,
    ] {
        assert!(!address_allowed(&rules, usage, socket("10.1.2.3:5432")));
    }
    let sandbox = plugin_sandbox();
    assert!(sandbox.tcp);
    assert!(!sandbox.udp);
    assert!(!sandbox.ip_name_lookup);
    assert!(!sandbox.filesystem);
    assert!(!sandbox.environment);
    assert!(!sandbox.process);
    assert!(!sandbox.standard_io);
}

#[test]
fn a_range_permission_holds_one_range() {
    let rule = TcpPermissionRule::from_cidr(ip("10.0.0.0"), 8, vec![1, 2]);
    assert_eq!(rule.ports, vec![1, 2]);
    assert_eq!(rule.destinations.len(), 1);
    assert!(rule.allows(socket("10.0.0.1:2")));
}
