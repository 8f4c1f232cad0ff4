use libp2p_core::multiaddr::Multiaddr;
use libp2p_identity::PeerId;
use mdns_query::ip::{
    is_ipv6_link_local, IpAddr, Ipv4Addr, Ipv6Addr, SocketAddr, SocketAddrV4, SocketAddrV6,
};
use mdns_query::zone::add_ipv6_zone;

fn parse(text: &str) -> Multiaddr {
    text.parse().expect("bad multiaddress")
}

fn scoped(scope_id: u32) -> SocketAddr {
    SocketAddr::V6(SocketAddrV6 {
        ip: Ipv6Addr { segments: [0xfe80, 0, 0, 0, 0, 0, 0, 2] },
        port: 5353,
        flowinfo: 0,
        scope_id,
    })
}

fn ipv4_socket() -> SocketAddr {
    SocketAddr::V4(SocketAddrV4 { ip: Ipv4Addr { octets: [192, 168, 1, 2] }, port: 5353 })
}

fn with_first_segment(first: u16) -> Ipv6Addr {
    Ipv6Addr { segments: [first, 0, 0, 0, 0, 0, 0, 1] }
}

#[test]
fn adds_ipv6_zone_to_link_local_addresses() {
    let addr = parse("/ip6/fe80::1/udp/1234/quic-v1");
    let remote_addr = scoped(42);

    assert_eq!(
        add_ipv6_zone(addr, &remote_addr),
        parse("/ip6/fe80::1/ip6zone/42/udp/1234/quic-v1")
    );
}

#[test]
fn does_not_add_ipv6_zone_to_global_addresses() {
    let addr = parse("/ip6/2001:db8::1/udp/1234/quic-v1");
    let remote_addr = scoped(42);

    assert_eq!(
        add_ipv6_zone(addr, &remote_addr),
        parse("/ip6/2001:db8::1/udp/1234/quic-v1")
    );
}

#[test]
fn zone_is_the_whole_scope_id() {
    assert_eq!(
        add_ipv6_zone(parse("/ip6/fe80::1/udp/1"), &scoped(4294967295)),
        parse("/ip6/fe80::1/ip6zone/4294967295/udp/1")
    );
    assert_eq!(
        add_ipv6_zone(parse("/ip6/fe80::1/udp/1"), &scoped(7)),
        parse("/ip6/fe80::1/ip6zone/7/udp/1")
    );
    assert_eq!(
        add_ipv6_zone(parse("/ip6/fe80::1/udp/1"), &scoped(100)),
        parse("/ip6/fe80::1/ip6zone/100/udp/1")
    );
}

#[test]
fn foreign_zones_are_replaced() {
    assert_eq!(
        add_ipv6_zone(parse("/ip6/fe80::1/ip6zone/eth0/udp/1"), &scoped(42)),
        parse("/ip6/fe80::1/ip6zone/42/udp/1")
    );
    assert_eq!(
        add_ipv6_zone(parse("/ip6zone/eth0/ip6/2001:db8::1/ip6zone/eth1/udp/1"), &scoped(42)),
        parse("/ip6/2001:db8::1/udp/1")
    );
}

#[test]
fn only_the_first_link_local_address_gets_a_zone() {
    assert_eq!(
        add_ipv6_zone(
            parse("/ip6/2001:db8::1/udp/1/ip6/fe80::1/udp/2/ip6/fe80::2/udp/3"),
            &scoped(9)
        ),
        parse("/ip6/2001:db8::1/udp/1/ip6/fe80::1/ip6zone/9/udp/2/ip6/fe80::2/udp/3")
    );
}

#[test]
fn without_a_scope_nothing_changes() {
    let addr = parse("/ip6/fe80::1/ip6zone/eth0/udp/1/ip6/fe80::2");
    assert_eq!(add_ipv6_zone(addr.clone(), &scoped(0)), addr);
    assert_eq!(add_ipv6_zone(addr.clone(), &ipv4_socket()), addr);
}

#[test]
fn adding_a_zone_twice_is_adding_it_once() {
    let once = add_ipv6_zone(parse("/ip6/fe80::1/udp/1/ip6/fe80::2"), &scoped(3));
    assert_eq!(add_ipv6_zone(once.clone(), &scoped(3)), once);
    assert_eq!(
        add_ipv6_zone(once, &scoped(4)),
        parse("/ip6/fe80::1/ip6zone/4/udp/1/ip6/fe80::2")
    );
}

#[test]
fn empty_address_stays_empty() {
    assert_eq!(add_ipv6_zone(Multiaddr::empty(), &scoped(3)), Multiaddr::empty());
}

#[test]
fn other_components_come_through_unchanged() {
    let peer_id = PeerId::random();
    let hash = "uEiAkCDHWcBzVyz4dLUWO6TrEPMo8uGYN6X3Q7mtT1GWvXQ";
    let onion = "vww6ybal4bd7szmgncyruucpgfkqahzddi37ktceo3ah7ngmcopnpyyd";
    for text in [
        "/ip4/127.0.0.1/tcp/80/http".to_string(),
        "/dns/a.example/tcp/443/https".to_string(),
        "/dns4/a.example/udp/1/quic".to_string(),
        "/dns6/a.example/sctp/1".to_string(),
        "/dnsaddr/a.example".to_string(),
        "/ip4/127.0.0.1/tcp/80/ws".to_string(),
        "/ip4/127.0.0.1/tcp/80/wss".to_string(),
        "/ip4/127.0.0.1/tcp/80/x-parity-ws/a%2Fb".to_string(),
        "/ip4/127.0.0.1/tcp/80/tls/sni/a.example/ws".to_string(),
        "/ip4/127.0.0.1/ipcidr/24".to_string(),
        "/memory/1234567890123".to_string(),
        "/unix/socket".to_string(),
        format!("/onion3/{onion}:1234"),
        "/onion/aaimaq4ygg2iegci:80".to_string(),
        format!("/ip4/1.2.3.4/udp/1/quic-v1/webtransport/certhash/{hash}/certhash/{hash}"),
        format!("/ip4/1.2.3.4/udp/1/webrtc-direct/certhash/{hash}"),
        format!("/ip4/1.2.3.4/tcp/1/p2p/{peer_id}/p2p-circuit"),
        "/ip4/1.2.3.4/udp/1/utp".to_string(),
        "/ip4/1.2.3.4/udp/1/udt".to_string(),
        "/ip4/1.2.3.4/dccp/1".to_string(),
        "/ip4/1.2.3.4/tcp/1/noise".to_string(),
    ] {
        let addr = parse(&text);
        assert_eq!(add_ipv6_zone(addr.clone(), &scoped(42)), addr, "{text}");
    }
}

#[test]
fn link_local_prefix_is_ten_bits() {
    assert!(is_ipv6_link_local(&with_first_segment(0xfe80)));
    assert!(is_ipv6_link_local(&with_first_segment(0xfe81)));
    assert!(is_ipv6_link_local(&with_first_segment(0xfebf)));
    assert!(!is_ipv6_link_local(&with_first_segment(0xfec0)));
    assert!(!is_ipv6_link_local(&with_first_segment(0xfe7f)));
    assert!(!is_ipv6_link_local(&with_first_segment(0x2001)));
    assert!(!is_ipv6_link_local(&with_first_segment(0)));
}

#[test]
fn socket_addresses_have_an_ip_and_a_port() {
    assert_eq!(ipv4_socket().ip(), IpAddr::V4(Ipv4Addr { octets: [192, 168, 1, 2] }));
    assert_eq!(ipv4_socket().port(), 5353);
    assert_eq!(
        scoped(42).ip(),
        IpAddr::V6(Ipv6Addr { segments: [0xfe80, 0, 0, 0, 0, 0, 0, 2] })
    );
    assert_eq!(scoped(42).port(), 5353);
}
