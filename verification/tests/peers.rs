use hickory_proto::rr::rdata::{PTR, TXT};
use libp2p_core::multiaddr::{Multiaddr, Protocol};
use libp2p_identity::PeerId;
use mdns_query::dns::{
    decode_character_string, DnsMessage, DnsName, DnsData, DnsRecord, UnterminatedString, SERVICE_NAME_FQDN,
};
use mdns_query::peer::{Announcement, MdnsPeer};
use mdns_query::response::is_service_name;
use mdns_query::time::{Duration, Instant};

fn parse(text: &str) -> Multiaddr {
    text.parse().expect("bad multiaddress")
}

fn name(labels: &[&str]) -> DnsName {
    DnsName { labels: labels.iter().map(|l| l.as_bytes().to_vec()).collect(), fqdn: true }
}

fn txt_record(name: DnsName, strings: &[&str]) -> DnsRecord {
    DnsRecord {
        name,
        ttl: 1,
        data: DnsData::Txt(strings.iter().map(|s| s.as_bytes().to_vec()).collect()),
    }
}

fn packet(additionals: Vec<DnsRecord>) -> DnsMessage {
    DnsMessage { id: 1, queries: vec![], answers: vec![], additionals }
}

fn wire_name(text: &str) -> hickory_proto::rr::Name {
    hickory_proto::rr::Name::from_ascii(text).expect("bad name")
}

/// The packets with which a peer answers a query: a pointer under the service name to
/// a name of its own, and a text record under that name for each address.
fn build_query_response(id: u16, addresses: Vec<&Multiaddr>, ttl: u32) -> Vec<Vec<u8>> {
    let peer_name = wire_name("ayZtp3RXwmBTgVNZ2cYyzQRE8mtUsWHQ.");
    let mut message = hickory_proto::op::Message::new();
    message.set_id(id);
    message.set_message_type(hickory_proto::op::MessageType::Response);
    message.add_answer(hickory_proto::rr::Record::from_rdata(
        wire_name(SERVICE_NAME_FQDN),
        ttl,
        hickory_proto::rr::RData::PTR(PTR(peer_name.clone())),
    ));
    for addr in addresses {
        message.add_additional(hickory_proto::rr::Record::from_rdata(
            peer_name.clone(),
            ttl,
            hickory_proto::rr::RData::TXT(TXT::new(vec![format!("dnsaddr={addr}")])),
        ));
    }
    vec![message.to_vec().expect("unable to write packet")]
}

#[test]
fn test_create_mdns_peer() {
    let ttl = 300;
    let peer_id = PeerId::random();

    let mut addr1: Multiaddr = "/ip4/1.2.3.4/tcp/5000".parse().expect("bad multiaddress");
    let mut addr2: Multiaddr = "/ip6/::1/udp/10000".parse().expect("bad multiaddress");
    addr1.push(Protocol::P2p(peer_id));
    addr2.push(Protocol::P2p(peer_id));

    let packets = build_query_response(0xf8f8, vec![&addr1, &addr2], 60);

    for bytes in packets {
        let packet = DnsMessage::from_vec(&bytes).expect("unable to parse packet");
        assert_eq!(packet.id, 0xf8f8);
        let record_value = packet
            .answers
            .iter()
            .filter_map(|record| {
                if record.name != name(&["_p2p", "_udp", "local"]) {
                    return None;
                }
                let DnsData::Ptr(record_value) = &record.data else {
                    return None;
                };
                Some(record_value)
            })
            .next()
            .expect("empty record value");

        let peer = MdnsPeer::new(&packet, record_value, ttl).expect("fail to create peer");
        assert_eq!(peer.peer_id, peer_id);
        assert_eq!(*peer.id(), peer_id);
        assert_eq!(peer.ttl(), Duration { nanos: 300_000_000_000 });
        assert_eq!(
            *peer.addresses(),
            vec![parse("/ip4/1.2.3.4/tcp/5000"), parse("/ip6/::1/udp/10000")]
        );
    }
}

#[test]
fn the_first_announcement_decides_the_peer() {
    let first = PeerId::random();
    let second = PeerId::random();
    let a = format!("dnsaddr=/ip4/1.1.1.1/tcp/1/p2p/{first}");
    let b = format!("dnsaddr=/ip4/2.2.2.2/tcp/2/p2p/{second}");
    let c = format!("dnsaddr=/ip4/3.3.3.3/tcp/3/p2p/{first}");
    let packet = packet(vec![
        txt_record(name(&["peer"]), &["unrelated", &a, &b]),
        txt_record(name(&["peer"]), &[&c]),
    ]);

    let peer = MdnsPeer::new(&packet, &name(&["peer"]), 5).expect("no peer");
    assert_eq!(peer.peer_id, first);
    assert_eq!(peer.ttl, 5);
    assert_eq!(peer.addrs, vec![parse("/ip4/1.1.1.1/tcp/1"), parse("/ip4/3.3.3.3/tcp/3")]);
}

#[test]
fn only_text_records_of_the_name_count() {
    let peer_id = PeerId::random();
    let announcement = format!("dnsaddr=/ip4/1.1.1.1/tcp/1/p2p/{peer_id}");
    let packet = packet(vec![
        txt_record(name(&["other"]), &[&announcement]),
        txt_record(DnsName { fqdn: false, ..name(&["peer"]) }, &[&announcement]),
        txt_record(name(&["peer", "local"]), &[&announcement]),
        DnsRecord { name: name(&["peer"]), ttl: 1, data: DnsData::Other },
        DnsRecord { name: name(&["peer"]), ttl: 1, data: DnsData::Ptr(name(&["peer"])) },
    ]);

    assert!(MdnsPeer::new(&packet, &name(&["peer"]), 5).is_none());
    let other = MdnsPeer::new(&packet, &name(&["other"]), 5).expect("no peer");
    assert_eq!(other.peer_id, peer_id);
}

#[test]
fn names_are_compared_without_regard_to_case() {
    let peer_id = PeerId::random();
    let announcement = format!("dnsaddr=/ip4/1.1.1.1/tcp/1/p2p/{peer_id}");
    let packet = packet(vec![txt_record(name(&["Peer-1", "LOCAL"]), &[&announcement])]);

    for asked in [name(&["peer-1", "local"]), name(&["PEER-1", "Local"])] {
        let peer = MdnsPeer::new(&packet, &asked, 5).expect("no peer");
        assert_eq!(peer.peer_id, peer_id);
        assert_eq!(peer.addrs, vec![parse("/ip4/1.1.1.1/tcp/1")]);
    }
    assert!(MdnsPeer::new(&packet, &name(&["peer_1", "local"]), 5).is_none());
}

#[test]
fn without_an_announcement_there_is_no_peer() {
    let packet = packet(vec![txt_record(
        name(&["peer"]),
        &["", "dnsaddr=", "dnsaddr=/ip4/1.1.1.1/tcp/1", "/ip4/1.1.1.1"],
    )]);
    assert!(MdnsPeer::new(&packet, &name(&["peer"]), 5).is_none());
    assert!(MdnsPeer::from_announcements(vec![], 5).is_none());
}

#[test]
fn announcements_are_read_from_text() {
    let peer_id = PeerId::random();
    let text = format!("dnsaddr=/ip4/1.1.1.1/tcp/1/p2p/{peer_id}");

    let plain = Announcement::from_txt(text.as_bytes()).expect("no announcement");
    assert_eq!(plain.addr, parse("/ip4/1.1.1.1/tcp/1"));
    assert_eq!(plain.peer_id, peer_id);

    let quoted = Announcement::from_txt(format!("\"{text}\"").as_bytes()).expect("no announcement");
    assert_eq!(quoted.addr, parse("/ip4/1.1.1.1/tcp/1"));
    assert_eq!(quoted.peer_id, peer_id);

    let bare = Announcement::from_txt(format!("dnsaddr=/p2p/{peer_id}").as_bytes())
        .expect("no announcement");
    assert_eq!(bare.addr, Multiaddr::empty());

    let twice = Announcement::from_txt(format!("{text}/p2p/{peer_id}").as_bytes())
        .expect("no announcement");
    assert_eq!(twice.addr, parse(&format!("/ip4/1.1.1.1/tcp/1/p2p/{peer_id}")));
}

#[test]
fn other_text_announces_nothing() {
    let peer_id = PeerId::random();
    let text = format!("dnsaddr=/ip4/1.1.1.1/tcp/1/p2p/{peer_id}");

    assert!(Announcement::from_txt(b"").is_none());
    assert!(Announcement::from_txt(b"dnsadd").is_none());
    assert!(Announcement::from_txt(b"dnsaddr=").is_none());
    assert!(Announcement::from_txt(b"DNSADDR=/ip4/1.1.1.1").is_none());
    assert!(Announcement::from_txt(format!("\"{text}").as_bytes()).is_none());
    assert!(Announcement::from_txt(format!(" {text}").as_bytes()).is_none());
    assert!(Announcement::from_txt(format!("{text}/tcp/1").as_bytes()).is_none());
    assert!(Announcement::from_txt(b"dnsaddr=/ip4/1.1.1.1/tcp/1").is_none());
    assert!(Announcement::from_txt(b"dnsaddr=/nonsense/1").is_none());
    assert!(Announcement::from_txt(b"dnsaddr=\xff\xfe").is_none());
}

#[test]
fn an_address_is_split_at_its_peer_id() {
    let peer_id = PeerId::random();
    let split = Announcement::from_address(parse(&format!("/dns4/a.example/udp/1/p2p/{peer_id}")))
        .expect("no announcement");
    assert_eq!(split.addr, parse("/dns4/a.example/udp/1"));
    assert_eq!(split.peer_id, peer_id);

    for text in [
        "/ip4/1.1.1.1", "/ip6/::1", "/dns/a", "/dns4/a", "/dns6/a", "/ip6zone/1", "/udp/1", "/quic-v1",
    ] {
        assert!(Announcement::from_address(parse(text)).is_none());
    }
    assert!(Announcement::from_address(Multiaddr::empty()).is_none());
}

#[test]
fn announcements_of_other_peers_are_left_out() {
    let first = PeerId::random();
    let second = PeerId::random();
    let announce = |text: &str, peer_id| Announcement { addr: parse(text), peer_id };
    let peer = MdnsPeer::from_announcements(
        vec![
            announce("/udp/1", first),
            announce("/udp/2", second),
            announce("/udp/3", first),
            announce("/udp/1", first),
        ],
        9,
    )
    .expect("no peer");
    assert_eq!(peer.peer_id, first);
    assert_eq!(peer.ttl, 9);
    assert_eq!(peer.addrs, vec![parse("/udp/1"), parse("/udp/3"), parse("/udp/1")]);
}

#[test]
fn character_strings_lose_their_quotes() {
    assert_eq!(decode_character_string(b""), Ok(&b""[..]));
    assert_eq!(decode_character_string(b"abc"), Ok(&b"abc"[..]));
    assert_eq!(decode_character_string(b"\"abc\""), Ok(&b"abc"[..]));
    assert_eq!(decode_character_string(b"\"\""), Ok(&b""[..]));
    assert_eq!(decode_character_string(b"abc\""), Ok(&b"abc\""[..]));
    assert_eq!(decode_character_string(b"\"a\\\"b\""), Ok(&b"a\\\"b"[..]));
    assert_eq!(decode_character_string(b"\""), Err(UnterminatedString));
    assert_eq!(decode_character_string(b"\"abc"), Err(UnterminatedString));
}

#[test]
fn service_name_is_compared_exactly() {
    assert!(is_service_name(&"_p2p._udp.local.".to_string()));
    assert!(!is_service_name(&"_p2p._udp.local".to_string()));
    assert!(!is_service_name(&"_P2P._udp.local.".to_string()));
    assert!(!is_service_name(&String::new()));
}

#[test]
fn time_is_counted_in_nanoseconds() {
    assert_eq!(Duration::from_secs(0), Duration { nanos: 0 });
    assert_eq!(Duration::from_secs(2), Duration { nanos: 2_000_000_000 });
    assert_eq!(Duration::from_secs(u64::MAX), Duration { nanos: 18446744073709551615000000000 });
    assert_eq!(
        Instant { nanos: 5 }.after(Duration::from_secs(1)),
        Instant { nanos: 1_000_000_005 }
    );
}

#[test]
fn later_records_add_addresses() {
    let first = PeerId::random();
    let second = PeerId::random();
    let text = |host: u8, peer_id: PeerId| format!("dnsaddr=/ip4/1.1.1.{host}/tcp/1/p2p/{peer_id}");
    let record = |host: u8, peer_id: PeerId| txt_record(name(&["peer"]), &[&text(host, peer_id)]);
    let addrs = |additionals: Vec<DnsRecord>| {
        let peer = MdnsPeer::new(&packet(additionals), &name(&["peer"]), 5).expect("no peer");
        assert_eq!(peer.ttl, 5);
        (peer.peer_id, peer.addrs)
    };
    assert_eq!(addrs(vec![record(1, first)]), (first, vec![parse("/ip4/1.1.1.1/tcp/1")]));
    assert_eq!(
        addrs(vec![record(1, first), record(2, second), record(3, first)]),
        (first, vec![parse("/ip4/1.1.1.1/tcp/1"), parse("/ip4/1.1.1.3/tcp/1")])
    );
    let unrelated = txt_record(name(&["peer"]), &["unrelated"]);
    assert_eq!(
        addrs(vec![unrelated, record(2, second)]),
        (second, vec![parse("/ip4/1.1.1.2/tcp/1")])
    );
}
