use hickory_proto::rr::rdata::{A, PTR, TXT};
use libp2p_core::multiaddr::Multiaddr;
use libp2p_identity::PeerId;
use mdns_query::dns::{
    DnsMessage, DnsName, DnsData, DnsRecord, META_QUERY_SERVICE_FQDN, SERVICE_NAME_FQDN,
};
use mdns_query::ip::{Ipv4Addr, Ipv6Addr, SocketAddr, SocketAddrV4, SocketAddrV6};
use mdns_query::packet::{requested_by, MdnsPacket, MdnsQuery, MdnsServiceDiscovery, Request};
use mdns_query::peer::MdnsPeer;
use mdns_query::response::{same_ip_family, MdnsResponse};
use mdns_query::time::Instant;

fn parse(text: &str) -> Multiaddr {
    text.parse().expect("bad multiaddress")
}

fn scoped() -> SocketAddr {
    SocketAddr::V6(SocketAddrV6 {
        ip: Ipv6Addr { segments: [0xfe80, 0, 0, 0, 0, 0, 0, 2] },
        port: 5353,
        flowinfo: 0,
        scope_id: 42,
    })
}

fn ipv4_socket() -> SocketAddr {
    SocketAddr::V4(SocketAddrV4 { ip: Ipv4Addr { octets: [192, 168, 1, 2] }, port: 5353 })
}

fn peer_at(peer_id: PeerId, ttl: u32, addrs: &[&str]) -> MdnsPeer {
    MdnsPeer { addrs: addrs.iter().map(|a| parse(a)).collect(), peer_id, ttl }
}

fn name(labels: &[&str]) -> DnsName {
    DnsName { labels: labels.iter().map(|l| l.as_bytes().to_vec()).collect(), fqdn: true }
}

fn asking(queries: Vec<DnsName>) -> DnsMessage {
    DnsMessage { id: 7, queries, answers: vec![], additionals: vec![] }
}

fn wire_name(text: &str) -> hickory_proto::rr::Name {
    hickory_proto::rr::Name::from_ascii(text).expect("bad name")
}

fn wire_query(id: u16, names: &[&str]) -> Vec<u8> {
    let mut message = hickory_proto::op::Message::new();
    message.set_id(id);
    for name in names {
        message.add_query(hickory_proto::op::Query::query(
            wire_name(name),
            hickory_proto::rr::RecordType::PTR,
        ));
    }
    message.to_vec().expect("unable to write packet")
}

fn discovered(response: &MdnsResponse, local: PeerId) -> Vec<Multiaddr> {
    response
        .extract_discovered(Instant { nanos: 0 }, local)
        .into_iter()
        .map(|(_, addr, _)| addr)
        .collect()
}

#[test]
fn only_translates_observed_address_with_same_ip_family() {
    let peer_id = PeerId::random();
    let response = MdnsResponse {
        peers: vec![MdnsPeer {
            addrs: vec![
                "/ip4/0.0.0.0/udp/1000/quic-v1".parse().expect("bad multiaddress"),
                "/ip6/::/udp/2000/quic-v1".parse().expect("bad multiaddress"),
            ],
            peer_id,
            ttl: 60,
        }],
        from: scoped(),
    };

    let discovered = response
        .extract_discovered(Instant { nanos: 12 }, PeerId::random())
        .into_iter()
        .map(|(_, addr, _)| addr)
        .collect::<Vec<_>>();

    assert_eq!(
        discovered,
        vec![parse(&format!("/ip6/fe80::2/ip6zone/42/udp/2000/quic-v1/p2p/{peer_id}"))]
    );
}

#[test]
fn an_ipv4_response_gives_ipv4_addresses() {
    let peer_id = PeerId::random();
    let response = MdnsResponse {
        peers: vec![peer_at(
            peer_id,
            60,
            &["/ip4/0.0.0.0/udp/1000/quic-v1", "/ip6/::/udp/2000/quic-v1"],
        )],
        from: ipv4_socket(),
    };
    assert_eq!(
        discovered(&response, PeerId::random()),
        vec![parse(&format!("/ip4/192.168.1.2/udp/1000/quic-v1/p2p/{peer_id}"))]
    );
}

#[test]
fn domain_names_are_replaced_by_the_observed_address() {
    let peer_id = PeerId::random();
    let response = MdnsResponse {
        peers: vec![peer_at(
            peer_id,
            60,
            &["/dns/a.example/tcp/1", "/dns4/a.example/tcp/2", "/dns6/a.example/tcp/3"],
        )],
        from: ipv4_socket(),
    };
    assert_eq!(
        discovered(&response, PeerId::random()),
        vec![
            parse(&format!("/ip4/192.168.1.2/tcp/1/p2p/{peer_id}")),
            parse(&format!("/ip4/192.168.1.2/tcp/2/p2p/{peer_id}")),
            parse(&format!("/ip4/192.168.1.2/tcp/3/p2p/{peer_id}")),
        ]
    );
}

#[test]
fn addresses_that_cannot_be_dialed_are_left_out() {
    let peer_id = PeerId::random();
    let other = PeerId::random();
    let ends_in_other = format!("/ip4/0.0.0.0/tcp/1/p2p/{other}");
    let ends_in_own = format!("/ip4/0.0.0.0/tcp/2/p2p/{peer_id}");
    let response = MdnsResponse {
        peers: vec![peer_at(
            peer_id,
            60,
            &["/memory/1", "/udp/1", "/dnsaddr/a.example", &ends_in_other, &ends_in_own],
        )],
        from: ipv4_socket(),
    };
    assert_eq!(
        discovered(&response, PeerId::random()),
        vec![parse(&format!("/ip4/192.168.1.2/tcp/2/p2p/{peer_id}"))]
    );
}

#[test]
fn the_local_peer_is_not_discovered() {
    let local = PeerId::random();
    let remote = PeerId::random();
    let response = MdnsResponse {
        peers: vec![
            peer_at(local, u32::MAX, &["/ip4/0.0.0.0/tcp/1"]),
            peer_at(remote, 60, &["/ip4/0.0.0.0/tcp/2"]),
        ],
        from: ipv4_socket(),
    };
    assert_eq!(response.discovered_peers().len(), 2);
    assert_eq!(
        discovered(&response, local),
        vec![parse(&format!("/ip4/192.168.1.2/tcp/2/p2p/{remote}"))]
    );
}

#[test]
fn discoveries_expire_with_the_record() {
    let a = PeerId::random();
    let b = PeerId::random();
    let response = MdnsResponse {
        peers: vec![
            peer_at(a, 60, &["/ip4/0.0.0.0/tcp/1", "/ip4/0.0.0.0/tcp/2"]),
            peer_at(b, 0, &["/ip4/0.0.0.0/tcp/3"]),
        ],
        from: ipv4_socket(),
    };
    assert_eq!(
        response.extract_discovered(Instant { nanos: 5 }, PeerId::random()),
        vec![
            (
                a,
                parse(&format!("/ip4/192.168.1.2/tcp/1/p2p/{a}")),
                Instant { nanos: 60_000_000_005 }
            ),
            (
                a,
                parse(&format!("/ip4/192.168.1.2/tcp/2/p2p/{a}")),
                Instant { nanos: 60_000_000_005 }
            ),
            (b, parse(&format!("/ip4/192.168.1.2/tcp/3/p2p/{b}")), Instant { nanos: 5 }),
        ]
    );
}

#[test]
fn the_observed_address_is_ip_and_udp_port() {
    let response = MdnsResponse { peers: vec![], from: scoped() };
    assert_eq!(response.observed_address(), parse("/ip6/fe80::2/udp/5353"));
    assert_eq!(*response.remote_addr(), scoped());
    let response = MdnsResponse { peers: vec![], from: ipv4_socket() };
    assert_eq!(response.observed_address(), parse("/ip4/192.168.1.2/udp/5353"));
}

#[test]
fn families_disagree_only_between_ip_addresses() {
    let same = |a: &str, b: &str| same_ip_family(&parse(a), &parse(b));
    assert!(same("/ip4/1.1.1.1", "/ip4/2.2.2.2"));
    assert!(same("/ip6/::1", "/ip6/::2"));
    assert!(!same("/ip4/1.1.1.1", "/ip6/::1"));
    assert!(!same("/ip6/::1", "/ip4/1.1.1.1/udp/1"));
    assert!(same("/dns4/a.example", "/ip6/::1"));
    assert!(same("/ip4/1.1.1.1", "/udp/1"));
    assert!(same("/udp/1/ip4/1.1.1.1", "/ip6/::1"));
    assert!(same_ip_family(&Multiaddr::empty(), &parse("/ip6/::1")));
    assert!(same_ip_family(&parse("/ip6/::1"), &Multiaddr::empty()));
}

#[test]
fn a_query_for_the_service_is_a_query() {
    let bytes = wire_query(0x1234, &[SERVICE_NAME_FQDN]);
    match MdnsPacket::new_from_bytes(&bytes, ipv4_socket()) {
        Ok(Some(MdnsPacket::Query(query))) => {
            assert!(query == MdnsQuery { from: ipv4_socket(), query_id: 0x1234 });
            assert_eq!(query.query_id(), 0x1234);
            assert_eq!(*query.remote_addr(), ipv4_socket());
        }
        _ => panic!("not a query"),
    }
}

#[test]
fn a_meta_query_is_a_service_discovery() {
    let bytes = wire_query(0x4321, &["a.example.", META_QUERY_SERVICE_FQDN]);
    match MdnsPacket::new_from_bytes(&bytes, scoped()) {
        Ok(Some(MdnsPacket::ServiceDiscovery(discovery))) => {
            assert!(discovery == MdnsServiceDiscovery { from: scoped(), query_id: 0x4321 });
            assert_eq!(discovery.query_id(), 0x4321);
            assert_eq!(*discovery.remote_addr(), scoped());
        }
        _ => panic!("not a service discovery"),
    }
}

#[test]
fn the_service_name_comes_before_the_meta_query() {
    let bytes = wire_query(1, &[META_QUERY_SERVICE_FQDN, SERVICE_NAME_FQDN]);
    assert!(matches!(
        MdnsPacket::new_from_bytes(&bytes, scoped()),
        Ok(Some(MdnsPacket::Query(MdnsQuery { query_id: 1, .. })))
    ));
}

#[test]
fn other_queries_are_ignored() {
    for other in ["a.example.", "_P2P._udp.local.", "local.", "."] {
        let bytes = wire_query(1, &[other]);
        assert!(matches!(MdnsPacket::new_from_bytes(&bytes, scoped()), Ok(None)), "{other}");
    }
}

#[test]
fn bytes_that_are_no_message_are_malformed() {
    assert!(MdnsPacket::new_from_bytes(b"", scoped()).is_err());
    assert!(MdnsPacket::new_from_bytes(b"no message", scoped()).is_err());
    let bytes = wire_query(1, &[SERVICE_NAME_FQDN]);
    assert!(MdnsPacket::new_from_bytes(&bytes[..bytes.len() - 1], scoped()).is_err());
}

#[test]
fn a_message_without_queries_is_a_response() {
    let peer_id = PeerId::random();
    let mut message = hickory_proto::op::Message::new();
    message.add_answer(hickory_proto::rr::Record::from_rdata(
        wire_name(SERVICE_NAME_FQDN),
        90,
        hickory_proto::rr::RData::PTR(PTR(wire_name("Peer."))),
    ));
    message.add_answer(hickory_proto::rr::Record::from_rdata(
        wire_name("_other._udp.local."),
        90,
        hickory_proto::rr::RData::PTR(PTR(wire_name("Peer."))),
    ));
    message.add_answer(hickory_proto::rr::Record::from_rdata(
        wire_name(SERVICE_NAME_FQDN),
        90,
        hickory_proto::rr::RData::A(A::new(1, 2, 3, 4)),
    ));
    message.add_answer(hickory_proto::rr::Record::from_rdata(
        wire_name(SERVICE_NAME_FQDN),
        90,
        hickory_proto::rr::RData::PTR(PTR(wire_name("nobody."))),
    ));
    message.add_additional(hickory_proto::rr::Record::from_rdata(
        wire_name("peer."),
        90,
        hickory_proto::rr::RData::TXT(TXT::new(vec![
            format!("dnsaddr=/ip4/0.0.0.0/tcp/4001/p2p/{peer_id}"),
            "unrelated".to_string(),
        ])),
    ));
    let bytes = message.to_vec().expect("unable to write packet");

    match MdnsPacket::new_from_bytes(&bytes, ipv4_socket()) {
        Ok(Some(MdnsPacket::Response(response))) => {
            assert_eq!(response.from, ipv4_socket());
            assert_eq!(response.peers.len(), 1);
            assert_eq!(response.peers[0].peer_id, peer_id);
            assert_eq!(response.peers[0].ttl, 90);
            assert_eq!(response.peers[0].addrs, vec![parse("/ip4/0.0.0.0/tcp/4001")]);
            assert_eq!(
                response.extract_discovered(Instant { nanos: 1 }, PeerId::random()),
                vec![(
                    peer_id,
                    parse(&format!("/ip4/192.168.1.2/tcp/4001/p2p/{peer_id}")),
                    Instant { nanos: 90_000_000_001 }
                )]
            );
        }
        _ => panic!("not a response"),
    }
}

#[test]
fn messages_are_classified_by_their_names() {
    let service = || name(&["_p2p", "_udp", "local"]);
    let meta = || name(&["_services", "_dns-sd", "_udp", "local"]);
    let classify = |queries| MdnsPacket::from_message(&asking(queries), scoped());
    assert!(matches!(
        classify(vec![service()]),
        Some(MdnsPacket::Query(MdnsQuery { query_id: 7, .. }))
    ));
    assert!(matches!(
        classify(vec![meta()]),
        Some(MdnsPacket::ServiceDiscovery(MdnsServiceDiscovery { query_id: 7, .. }))
    ));
    assert!(matches!(classify(vec![meta(), service()]), Some(MdnsPacket::Query(_))));
    assert!(classify(vec![DnsName { fqdn: false, ..service() }]).is_none());
    assert!(classify(vec![name(&["_p2p._udp", "local"])]).is_none());
    assert!(classify(vec![name(&["xn--bcher-kva", "local"])]).is_none());
    assert!(matches!(classify(vec![]), Some(MdnsPacket::Response(_))));
}

#[test]
fn answers_count_only_under_the_service_name() {
    let peer_id = PeerId::random();
    let text = format!("dnsaddr=/ip4/0.0.0.0/tcp/1/p2p/{peer_id}");
    let pointer = |owner: DnsName| DnsRecord { name: owner, ttl: 3, data: DnsData::Ptr(name(&["peer"])) };
    let packet = DnsMessage {
        id: 0,
        queries: vec![],
        answers: vec![
            pointer(name(&["_p2p", "_udp", "local"])),
            pointer(name(&["_P2P", "_udp", "local"])),
            pointer(name(&["local"])),
            pointer(name(&["_p2p", "_udp", "local"])),
        ],
        additionals: vec![DnsRecord {
            name: name(&["peer"]),
            ttl: 3,
            data: DnsData::Txt(vec![text.into_bytes()]),
        }],
    };
    let response = MdnsResponse::new(&packet, scoped());
    assert_eq!(response.from, scoped());
    assert_eq!(response.peers.len(), 2);
    assert_eq!(response.peers[0].peer_id, peer_id);
    assert_eq!(response.peers[1].peer_id, peer_id);
}

#[test]
fn decoding_keeps_names_and_text() {
    let mut message = hickory_proto::op::Message::new();
    message.set_id(0xbeef);
    message.add_query(hickory_proto::op::Query::query(
        wire_name("MiXed.Example."),
        hickory_proto::rr::RecordType::TXT,
    ));
    message.add_additional(hickory_proto::rr::Record::from_rdata(
        wire_name("a."),
        17,
        hickory_proto::rr::RData::TXT(TXT::from_bytes(vec![b"x\xff", b""])),
    ));
    let bytes = message.to_vec().expect("unable to write packet");
    assert_eq!(
        DnsMessage::from_vec(&bytes).expect("unable to parse packet"),
        DnsMessage {
            id: 0xbeef,
            queries: vec![name(&["MiXed", "Example"])],
            answers: vec![],
            additionals: vec![DnsRecord {
                name: name(&["a"]),
                ttl: 17,
                data: DnsData::Txt(vec![b"x\xff".to_vec(), vec![]]),
            }],
        }
    );
    assert!(DnsMessage::from_vec(&bytes[1..]).is_err());
}

#[test]
fn requests_are_told_by_name() {
    let texts = |names: &[&str]| names.iter().map(|n| n.to_string()).collect::<Vec<String>>();
    assert_eq!(requested_by(&texts(&[])), None);
    assert_eq!(requested_by(&texts(&["a.example."])), None);
    assert_eq!(requested_by(&texts(&["x.", "_p2p._udp.local."])), Some(Request::Peers));
    assert_eq!(
        requested_by(&texts(&["_services._dns-sd._udp.local.", "x."])),
        Some(Request::Services)
    );
    assert_eq!(
        requested_by(&texts(&["_services._dns-sd._udp.local.", "_p2p._udp.local."])),
        Some(Request::Peers)
    );
}

#[test]
fn a_malformed_packet_gives_the_error_of_its_own_bytes() {
    let query = wire_query(1, &[SERVICE_NAME_FQDN]);
    // A name cannot begin with a byte whose two leading bits are 1 and 0.
    let mut bad_label = query.clone();
    bad_label[12] = 0x80;
    let mut reasons = Vec::new();
    for bytes in [&b""[..], &b"no message"[..], &query[..query.len() - 1], &bad_label[..]] {
        let expected = hickory_proto::op::Message::from_vec(bytes)
            .expect_err("bytes that are no message")
            .to_string();
        match MdnsPacket::new_from_bytes(bytes, scoped()) {
            Err(malformed) => assert_eq!(malformed.reason.to_string(), expected),
            Ok(_) => panic!("not malformed"),
        }
        match DnsMessage::from_vec(bytes) {
            Err(malformed) => assert_eq!(malformed.reason.to_string(), expected),
            Ok(_) => panic!("not malformed"),
        }
        reasons.push(expected);
    }
    assert!(reasons.iter().any(|reason| *reason != reasons[0]));
}

#[test]
fn the_order_of_queries_does_not_matter() {
    let service = || name(&["_p2p", "_udp", "local"]);
    let meta = || name(&["_services", "_dns-sd", "_udp", "local"]);
    let other = || name(&["a", "example"]);
    let is_query = |queries| {
        matches!(
            MdnsPacket::from_message(&asking(queries), scoped()),
            Some(MdnsPacket::Query(MdnsQuery { query_id: 7, .. }))
        )
    };
    assert!(is_query(vec![service(), meta(), other()]));
    assert!(is_query(vec![other(), meta(), service()]));
    assert!(is_query(vec![meta(), service(), other(), meta()]));
}

#[test]
fn later_answers_add_peers() {
    let a = PeerId::random();
    let b = PeerId::random();
    let pointer = |target: &str| DnsRecord {
        name: name(&["_p2p", "_udp", "local"]),
        ttl: 3,
        data: DnsData::Ptr(name(&[target])),
    };
    let text = |owner: &str, peer_id: PeerId| DnsRecord {
        name: name(&[owner]),
        ttl: 3,
        data: DnsData::Txt(vec![
            format!("dnsaddr=/ip4/0.0.0.0/tcp/1/p2p/{peer_id}").into_bytes(),
        ]),
    };
    let peers = |answers: Vec<DnsRecord>| {
        let packet = DnsMessage {
            id: 0,
            queries: vec![],
            answers,
            additionals: vec![text("a", a), text("b", b)],
        };
        MdnsResponse::new(&packet, scoped()).peers.iter().map(|p| p.peer_id).collect::<Vec<_>>()
    };
    assert_eq!(peers(vec![pointer("a")]), vec![a]);
    assert_eq!(peers(vec![pointer("a"), pointer("c"), pointer("b")]), vec![a, b]);
}

#[test]
fn discoveries_of_peers_add_up() {
    let a = PeerId::random();
    let b = PeerId::random();
    let local = PeerId::random();
    let first = || peer_at(a, 60, &["/ip4/0.0.0.0/tcp/1", "/ip6/::/tcp/2"]);
    let second = || peer_at(b, 60, &["/ip4/0.0.0.0/tcp/3"]);
    let from = ipv4_socket();
    let found = |peers: Vec<MdnsPeer>| discovered(&MdnsResponse { peers, from }, local);
    let both = found(vec![first(), second()]);
    assert_eq!(both, [found(vec![first()]), found(vec![second()])].concat());
    assert_eq!(both.len(), 2);
}

#[test]
fn another_local_peer_changes_only_its_own_discoveries() {
    let a = PeerId::random();
    let b = PeerId::random();
    let c = PeerId::random();
    let response = MdnsResponse {
        peers: vec![
            peer_at(a, 60, &["/ip4/0.0.0.0/tcp/1"]),
            peer_at(b, 60, &["/ip4/0.0.0.0/tcp/2"]),
            peer_at(c, 60, &["/ip4/0.0.0.0/tcp/3"]),
        ],
        from: ipv4_socket(),
    };
    let at = |port: u16, peer_id: PeerId| parse(&format!("/ip4/192.168.1.2/tcp/{port}/p2p/{peer_id}"));
    assert_eq!(discovered(&response, a), vec![at(2, b), at(3, c)]);
    assert_eq!(discovered(&response, b), vec![at(1, a), at(3, c)]);
}

#[test]
fn a_response_read_later_expires_later() {
    let peer_id = PeerId::random();
    let response = MdnsResponse {
        peers: vec![peer_at(peer_id, 60, &["/ip4/0.0.0.0/tcp/1"])],
        from: ipv4_socket(),
    };
    let local = PeerId::random();
    let now = response.extract_discovered(Instant { nanos: 5 }, local);
    let later = response.extract_discovered(Instant { nanos: 12 }, local);
    assert_eq!(now[0].2, Instant { nanos: 60_000_000_005 });
    assert_eq!(later, vec![(now[0].0, now[0].1.clone(), Instant { nanos: 60_000_000_012 })]);
}
