//! Responses, and the addresses that they let a peer be dialed at.

use libp2p_core::multiaddr::Multiaddr;
use libp2p_identity::PeerId;
use vstd::prelude::*;

use crate::address::{self, Component, ComponentView};
use crate::dns::{self, DnsMessage, MessageView, DnsData, DataView, RecordView, SERVICE_NAME_FQDN};
use crate::ip::{IpAddr, SocketAddr};
use crate::peer::{self, MdnsPeer, PeerView};
use crate::seqs;
use crate::time::{Instant, NANOS_PER_SEC};
use crate::zone;

verus! {

/// A received mDNS response.
pub struct MdnsResponse {
    pub peers: Vec<MdnsPeer>,
    pub from: SocketAddr,
}

/// The mathematical value of an [`MdnsResponse`].
pub struct ResponseView {
    pub peers: Seq<PeerView>,
    pub from: SocketAddr,
}

impl View for MdnsResponse {
    type V = ResponseView;

    open spec fn view(&self) -> ResponseView {
        ResponseView { peers: self.peers@.map_values(|p: MdnsPeer| p@), from: self.from }
    }
}

/// The peer that an answer of a packet reports: none, unless the answer is a pointer
/// under the service name to a name that the packet describes a peer under.
pub open spec fn answered_peer(packet: MessageView, answer: RecordView) -> Option<PeerView> {
    if answer.name.text() == SERVICE_NAME_FQDN@ {
        match answer.data {
            DataView::Ptr(target) => peer::described_peer(packet, target, answer.ttl),
            _ => None,
        }
    } else {
        None
    }
}

/// The peers that the answers of a packet report, in order.
pub open spec fn answered_peers(packet: MessageView, answers: Seq<RecordView>) -> Seq<PeerView> {
    answers.filter_map(|answer: RecordView| answered_peer(packet, answer))
}

/// The response that a packet from `from` is read as.
pub open spec fn response_of(packet: MessageView, from: SocketAddr) -> ResponseView {
    ResponseView { peers: answered_peers(packet, packet.answers), from }
}

/// Whether a text is the service name.
pub fn is_service_name(text: &String) -> (r: bool)
    ensures
        r == (text@ == SERVICE_NAME_FQDN@),
{
    *text == SERVICE_NAME_FQDN.to_owned()
}

/// The address that the sender of a packet is observed at.
pub open spec fn observed(from: SocketAddr) -> Seq<ComponentView> {
    seq![address::ip_component(from.ip()), ComponentView::Udp(from.port())]
}

/// Whether two addresses do not begin with IP addresses of different families.
pub open spec fn families_agree(a: Seq<ComponentView>, b: Seq<ComponentView>) -> bool {
    a.len() > 0 && b.len() > 0 ==> {
        &&& !(a[0] is Ip4 && b[0] is Ip6)
        &&& !(a[0] is Ip6 && b[0] is Ip4)
    }
}

/// The address at which to dial a peer that announces `addr` in a packet from
/// `from`: `addr` with the sender's IP address for its host, its zone, and the peer
/// id. There is none if that would change the IP family, if `addr` does not begin
/// with a host, or if it ends in the id of another peer.
pub open spec fn dial_address(
    addr: Seq<ComponentView>,
    from: SocketAddr,
    peer_id: PeerId,
) -> Option<Seq<ComponentView>> {
    if families_agree(addr, observed(from)) {
        match address::translated(addr, observed(from)) {
            Some(translated) => address::with_peer(zone::zoned(translated, from), peer_id),
            None => None,
        }
    } else {
        None
    }
}

/// A peer, an address to dial it at, and when that stops being valid.
pub struct DiscoveryView {
    pub peer_id: PeerId,
    pub addr: Seq<ComponentView>,
    pub expiration: Instant,
}

/// The moment at which what is received at `now` with a time to live expires.
pub open spec fn expiration(now: Instant, ttl: u32) -> Instant {
    Instant { nanos: (now.nanos + ttl * NANOS_PER_SEC) as u128 }
}

/// What one address of a peer adds to the discoveries.
pub open spec fn discovery(
    peer: PeerView,
    addr: Seq<ComponentView>,
    from: SocketAddr,
    now: Instant,
) -> Option<DiscoveryView> {
    match dial_address(addr, from, peer.peer_id) {
        Some(addr) => Some(
            DiscoveryView { peer_id: peer.peer_id, addr, expiration: expiration(now, peer.ttl) },
        ),
        None => None,
    }
}

/// What a peer in a packet from `from` adds to the discoveries: nothing if it is the
/// local one, otherwise an entry for each of its addresses that can be dialed.
pub open spec fn peer_discoveries(
    peer: PeerView,
    from: SocketAddr,
    now: Instant,
    local_peer_id: PeerId,
) -> Seq<DiscoveryView> {
    if peer.peer_id == local_peer_id {
        Seq::empty()
    } else {
        peer.addrs.filter_map(|addr: Seq<ComponentView>| discovery(peer, addr, from, now))
    }
}

/// All discoveries from a response, in the order of its peers and their addresses.
pub open spec fn discoveries(
    response: ResponseView,
    now: Instant,
    local_peer_id: PeerId,
) -> Seq<DiscoveryView> {
    response.peers.flat_map(
        |peer: PeerView| peer_discoveries(peer, response.from, now, local_peer_id),
    )
}

/// The mathematical value of an entry of [`MdnsResponse::extract_discovered`].
pub open spec fn discovery_view(entry: (PeerId, Multiaddr, Instant)) -> DiscoveryView {
    DiscoveryView {
        peer_id: entry.0,
        addr: address::components(entry.1),
        expiration: entry.2,
    }
}

/// Return whether two addresses can be translated without changing IP family.
///
/// mDNS receives responses per network family and interface. Translating an
/// advertised IPv4 listen address through an observed IPv6 packet source, or
/// vice versa, manufactures cross-family addresses that combine one socket's IP
/// with another socket's port. Keep translations family-preserving so peers dial
/// addresses that correspond to a real listener.
pub fn same_ip_family(address: &Multiaddr, observed: &Multiaddr) -> (r: bool)
    ensures
        r == families_agree(address::components(*address), address::components(*observed)),
        !r <==> {
            &&& address::components(*address).len() > 0
            &&& address::components(*observed).len() > 0
            &&& {
                ||| address::components(*address)[0] is Ip4 && address::components(*observed)[0] is Ip6
                ||| address::components(*address)[0] is Ip6 && address::components(*observed)[0] is Ip4
            }
        },
{
    let advertised = address::components_of(address);
    let seen = address::components_of(observed);
    if advertised.len() == 0 || seen.len() == 0 {
        return true;
    }
    match (&advertised[0], &seen[0]) {
        (Component::Ip4(_), Component::Ip4(_)) | (Component::Ip6(_), Component::Ip6(_)) => true,
        (Component::Ip4(_), Component::Ip6(_)) | (Component::Ip6(_), Component::Ip4(_)) => false,
        _ => true,
    }
}

/// The address at which to dial a peer that announces `addr` to an observer of
/// `observed`, the address of the socket `from`.
fn dialable(addr: &Multiaddr, observed: &Multiaddr, from: &SocketAddr, peer_id: PeerId) -> (r: Option<
    Multiaddr,
>)
    requires
        address::components(*observed) == self::observed(*from),
    ensures
        match r {
            Some(dial) => dial_address(address::components(*addr), *from, peer_id) == Some(
                address::components(dial),
            ),
            None => dial_address(address::components(*addr), *from, peer_id) is None,
        },
{
    if !same_ip_family(addr, observed) {
        return None;
    }
    let new_addr = match libp2p_swarm::_address_translation(addr, observed) {
        Some(new_addr) => new_addr,
        None => return None,
    };
    let new_addr = zone::add_ipv6_zone(new_addr, from);
    match new_addr.with_p2p(peer_id) {
        Ok(new_addr) => Some(new_addr),
        Err(_) => None,
    }
}

impl MdnsResponse {
    /// Creates a new `MdnsResponse` based on the provided packet.
    pub fn new(packet: &DnsMessage, from: SocketAddr) -> (r: MdnsResponse)
        requires
            packet@.wf(),
        ensures
            r@ == response_of(packet@, from),
            r.from == from,
    {
        let mut peers: Vec<MdnsPeer> = Vec::new();
        let ghost answers = packet@.answers;
        for i in 0..packet.answers.len()
            invariant
                packet@.wf(),
                answers == packet@.answers,
                peers@.map_values(|p: MdnsPeer| p@) == answered_peers(
                    packet@,
                    answers.take(i as int),
                ),
        {
            let record = &packet.answers[i];
            assert(answers[i as int] == record@);
            assert(answers.take(i + 1).drop_last() =~= answers.take(i as int));
            let ghost before = peers@.map_values(|p: MdnsPeer| p@);
            if is_service_name(&dns::to_utf8(&record.name)) {
                if let DnsData::Ptr(record_value) = &record.data {
                    if let Some(peer) = MdnsPeer::new(packet, record_value, record.ttl) {
                        peers.push(peer);
                        assert(peers@.map_values(|p: MdnsPeer| p@) =~= before.push(peer@));
                    }
                }
            }
        }
        assert(answers.take(answers.len() as int) =~= answers);
        MdnsResponse { peers, from }
    }

    /// Source address of the packet.
    pub fn remote_addr(&self) -> (addr: &SocketAddr)
        ensures
            *addr == self.from,
    {
        &self.from
    }

    /// The address that the remote is observed at: its IP address and UDP port.
    pub fn observed_address(&self) -> (addr: Multiaddr)
        ensures
            address::components(addr) == observed(self.from),
            self.from matches SocketAddr::V4(socket) ==> address::components(addr) == seq![
                ComponentView::Ip4(socket.ip),
                ComponentView::Udp(socket.port),
            ],
            self.from matches SocketAddr::V6(socket) ==> address::components(addr) == seq![
                ComponentView::Ip6(socket.ip),
                ComponentView::Udp(socket.port),
            ],
    {
        let obs_ip = match self.remote_addr().ip() {
            IpAddr::V4(ip) => Component::Ip4(ip),
            IpAddr::V6(ip) => Component::Ip6(ip),
        };
        let obs_port = Component::Udp(self.remote_addr().port());
        let mut addr = Multiaddr::empty();
        address::push(&mut addr, obs_ip);
        address::push(&mut addr, obs_port);
        assert(address::components(addr) =~= observed(self.from));
        addr
    }

    /// Returns the list of peers that have been reported in this packet.
    ///
    /// > **Note**: Keep in mind that this will also contain the responses we sent ourselves.
    pub fn discovered_peers(&self) -> (peers: &Vec<MdnsPeer>)
        ensures
            *peers == self.peers,
    {
        &self.peers
    }

    /// The peers in this response other than the local one, once for each address at
    /// which they can be dialed, with the time at which that expires.
    pub fn extract_discovered(&self, now: Instant, local_peer_id: PeerId) -> (r: Vec<
        (PeerId, Multiaddr, Instant),
    >)
        requires
            forall|i: int|
                0 <= i < self.peers.len() && (#[trigger] self.peers[i]).peer_id != local_peer_id
                    ==> now.nanos + self.peers[i].ttl * NANOS_PER_SEC <= u128::MAX,
        ensures
            r@.map_values(|entry: (PeerId, Multiaddr, Instant)| discovery_view(entry))
                == discoveries(self@, now, local_peer_id),
    {
        let mut found: Vec<(PeerId, Multiaddr, Instant)> = Vec::new();
        let observed = self.observed_address();
        let ghost all = self@.peers;
        let ghost view = |entry: (PeerId, Multiaddr, Instant)| discovery_view(entry);
        let ghost per_peer = |peer: PeerView| peer_discoveries(peer, self.from, now, local_peer_id);
        assert(all.take(0).flat_map(per_peer) =~= Seq::<DiscoveryView>::empty());
        let peers = self.discovered_peers();
        for i in 0..peers.len()
            invariant
                *peers == self.peers,
                forall|i: int|
                    0 <= i < self.peers.len() && (#[trigger] self.peers[i]).peer_id != local_peer_id
                        ==> now.nanos + self.peers[i].ttl * NANOS_PER_SEC <= u128::MAX,
                all == self@.peers,
                address::components(observed) == self::observed(self.from),
                view == (|entry: (PeerId, Multiaddr, Instant)| discovery_view(entry)),
                per_peer == (|peer: PeerView|
                    peer_discoveries(peer, self.from, now, local_peer_id)),
                found@.map_values(view) == all.take(i as int).flat_map(per_peer),
        {
            let peer = &peers[i];
            assert(all[i as int] == peer@);
            let ghost before = found@.map_values(view);
            proof {
                all.lemma_flat_map_take_append(per_peer, i as int);
            }
            if !(*peer.id() == local_peer_id) {
                let new_expiration = now.after(peer.ttl());
                let addresses = peer.addresses();
                let ghost addrs = peer@.addrs;
                let ghost entry = |addr: Seq<ComponentView>|
                    discovery(peer@, addr, self.from, now);
                for j in 0..addresses.len()
                    invariant
                        *addresses == peer.addrs,
                        addrs == peer@.addrs,
                        address::components(observed) == self::observed(self.from),
                        new_expiration == expiration(now, peer.ttl),
                        view == (|entry: (PeerId, Multiaddr, Instant)| discovery_view(entry)),
                        entry == (|addr: Seq<ComponentView>|
                            discovery(peer@, addr, self.from, now)),
                        found@.map_values(view) == before + addrs.take(j as int).filter_map(entry),
                {
                    let ghost so_far = found@;
                    assert(addrs[j as int] == address::components(addresses[j as int]));
                    assert(addrs.take(j + 1).drop_last() =~= addrs.take(j as int));
                    if let Some(new_addr) = dialable(
                        &addresses[j],
                        &observed,
                        self.remote_addr(),
                        *peer.id(),
                    ) {
                        found.push((*peer.id(), new_addr, new_expiration));
                        assert(found@.map_values(view) =~= so_far.map_values(view).push(
                            discovery_view(found@.last()),
                        ));
                        assert(found@.map_values(view) =~= before + addrs.take(j + 1).filter_map(
                            entry,
                        ));
                    }
                }
                assert(addrs.take(addrs.len() as int) =~= addrs);
            }
        }
        assert(all.take(all.len() as int) =~= all);
        found
    }
}

/// Every peer of a response is reported by one of the packet's answers.
pub proof fn law_reported_peer_is_answered(packet: MessageView, k: int)
    requires
        0 <= k < answered_peers(packet, packet.answers).len(),
    ensures
        exists|i: int|
            0 <= i < packet.answers.len() && answered_peer(packet, #[trigger] packet.answers[i])
                == Some(answered_peers(packet, packet.answers)[k]),
{
    let i = seqs::lemma_filter_map_source(
        packet.answers,
        |answer: RecordView| answered_peer(packet, answer),
        k,
    );
    assert(answered_peer(packet, packet.answers[i]) == Some(
        answered_peers(packet, packet.answers)[k],
    ));
}

/// Every peer that an answer reports is in the response, the local one not excepted.
pub proof fn law_answered_peer_is_reported(packet: MessageView, i: int)
    requires
        0 <= i < packet.answers.len(),
        answered_peer(packet, packet.answers[i]) is Some,
    ensures
        answered_peers(packet, packet.answers).contains(
            answered_peer(packet, packet.answers[i])->0,
        ),
{
    let k = seqs::lemma_filter_map_target(
        packet.answers,
        |answer: RecordView| answered_peer(packet, answer),
        i,
    );
    assert(answered_peers(packet, packet.answers)[k] == answered_peer(packet, packet.answers[i])->0);
}

/// A dialed address begins with the IP address that the sender was observed at, and
/// an IP address is only ever replaced by one of its own family.
pub proof fn law_dial_keeps_family(addr: Seq<ComponentView>, from: SocketAddr, peer_id: PeerId)
    requires
        dial_address(addr, from, peer_id) is Some,
    ensures
        addr.len() > 0,
        dial_address(addr, from, peer_id)->0.len() > 0,
        dial_address(addr, from, peer_id)->0[0] == address::ip_component(from.ip()),
        addr[0] is Ip4 ==> dial_address(addr, from, peer_id)->0[0] is Ip4,
        addr[0] is Ip6 ==> dial_address(addr, from, peer_id)->0[0] is Ip6,
{
    let translated = addr.update(0, address::ip_component(from.ip()));
    zone::law_zone_keeps_first(translated, from);
}

/// An address of the other IP family is not dialed.
pub proof fn law_other_family_not_dialed(
    addr: Seq<ComponentView>,
    from: SocketAddr,
    peer_id: PeerId,
)
    requires
        addr.len() > 0,
        (addr[0] is Ip4 && from is V6) || (addr[0] is Ip6 && from is V4),
    ensures
        dial_address(addr, from, peer_id) is None,
{
}

/// A dialed address ends in the id of the peer that announced it.
pub proof fn law_dial_names_peer(addr: Seq<ComponentView>, from: SocketAddr, peer_id: PeerId)
    requires
        dial_address(addr, from, peer_id) is Some,
    ensures
        dial_address(addr, from, peer_id)->0.last() == ComponentView::P2p(peer_id),
{
}

/// Zones aside, a dialed address is the announced one but for its host and the peer
/// id at its end: it is dialed at the port that was announced, not at the one that
/// the packet came from.
pub proof fn law_dial_keeps_the_rest(addr: Seq<ComponentView>, from: SocketAddr, peer_id: PeerId)
    requires
        dial_address(addr, from, peer_id) is Some,
    ensures
        ({
            let kept = zone::without_zones(addr.update(0, address::ip_component(from.ip())));
            let dialed = zone::without_zones(dial_address(addr, from, peer_id)->0);
            dialed == kept || dialed == kept.push(ComponentView::P2p(peer_id))
        }),
{
    let translated = addr.update(0, address::ip_component(from.ip()));
    let with_zone = zone::zoned(translated, from);
    zone::law_zone_keeps_the_rest(translated, from);
    let dialed = dial_address(addr, from, peer_id)->0;
    if dialed != with_zone {
        let end = ComponentView::P2p(peer_id);
        reveal(Seq::filter);
        assert(with_zone.push(end).drop_last() =~= with_zone);
    }
}

/// An address is dialed if it begins with an IP address of the sender's family or
/// with a domain name, and holds no peer id.
pub proof fn law_same_family_is_dialed(addr: Seq<ComponentView>, from: SocketAddr, peer_id: PeerId)
    requires
        addr.len() > 0,
        addr[0].is_host(),
        addr[0] is Ip4 ==> from is V4,
        addr[0] is Ip6 ==> from is V6,
        forall|i: int| 0 <= i < addr.len() ==> !(#[trigger] addr[i] is P2p),
    ensures
        dial_address(addr, from, peer_id) is Some,
{
    let translated = addr.update(0, address::ip_component(from.ip()));
    let with_zone = zone::zoned(translated, from);
    zone::law_zone_adds_only_zones(translated, from);
    if with_zone.len() > 0 && with_zone.last() is P2p {
        assert(translated.contains(with_zone.last()));
        let i = choose|i: int| 0 <= i < translated.len() && translated[i] == with_zone.last();
        assert(translated[i] == if i == 0 {
            address::ip_component(from.ip())
        } else {
            addr[i]
        });
    }
}

/// Every discovery is of a peer in the response that is not the local one, at an
/// address that this peer announced, until the time to live of its record is over.
pub proof fn law_discoveries_are_announced(
    response: ResponseView,
    now: Instant,
    local_peer_id: PeerId,
    k: int,
)
    requires
        0 <= k < discoveries(response, now, local_peer_id).len(),
    ensures
        discoveries(response, now, local_peer_id)[k].peer_id != local_peer_id,
        exists|i: int, j: int|
            {
                &&& 0 <= i < response.peers.len()
                &&& 0 <= j < response.peers[i].addrs.len()
                &&& response.peers[i].peer_id != local_peer_id
                &&& #[trigger] discovery(
                    response.peers[i],
                    response.peers[i].addrs[j],
                    response.from,
                    now,
                ) == Some(discoveries(response, now, local_peer_id)[k])
            },
{
    let per_peer = |peer: PeerView| peer_discoveries(peer, response.from, now, local_peer_id);
    let (i, m) = seqs::lemma_flat_map_source(response.peers, per_peer, k);
    let peer = response.peers[i];
    let entry = |addr: Seq<ComponentView>| discovery(peer, addr, response.from, now);
    let j = seqs::lemma_filter_map_source(peer.addrs, entry, m);
    assert(discovery(peer, peer.addrs[j], response.from, now) == Some(
        discoveries(response, now, local_peer_id)[k],
    ));
}

/// Every address of a peer other than the local one that can be dialed is discovered.
pub proof fn law_dialable_is_discovered(
    response: ResponseView,
    now: Instant,
    local_peer_id: PeerId,
    i: int,
    j: int,
)
    requires
        0 <= i < response.peers.len(),
        0 <= j < response.peers[i].addrs.len(),
        response.peers[i].peer_id != local_peer_id,
        dial_address(response.peers[i].addrs[j], response.from, response.peers[i].peer_id) is Some,
    ensures
        discoveries(response, now, local_peer_id).contains(
            DiscoveryView {
                peer_id: response.peers[i].peer_id,
                addr: dial_address(
                    response.peers[i].addrs[j],
                    response.from,
                    response.peers[i].peer_id,
                )->0,
                expiration: expiration(now, response.peers[i].ttl),
            },
        ),
{
    let per_peer = |peer: PeerView| peer_discoveries(peer, response.from, now, local_peer_id);
    let peer = response.peers[i];
    let entry = |addr: Seq<ComponentView>| discovery(peer, addr, response.from, now);
    let m = seqs::lemma_filter_map_target(peer.addrs, entry, j);
    let k = seqs::lemma_flat_map_target(response.peers, per_peer, i, m);
    assert(discoveries(response, now, local_peer_id)[k] == entry(peer.addrs[j])->0);
}

/// What is announced is discovered. If an answer under the service name points to a
/// name, and a text record of that name announces an address of the peer that the
/// name describes, and that peer is not the local one, then the address is among the
/// discoveries as it is to be dialed, until the time to live of the answer is over.
pub proof fn law_announced_is_discovered(
    packet: MessageView,
    from: SocketAddr,
    now: Instant,
    local_peer_id: PeerId,
    i: int,
    m: int,
)
    requires
        0 <= i < packet.answers.len(),
        packet.answers[i].name.text() == SERVICE_NAME_FQDN@,
        packet.answers[i].data is Ptr,
        ({
            let answer = packet.answers[i];
            let target = answer.data->Ptr_0;
            let strings = peer::txt_strings(packet.additionals, target);
            &&& 0 <= m < strings.len()
            &&& peer::announcement(strings[m]) matches Some(announced)
            &&& peer::described_peer(packet, target, answer.ttl) matches Some(described)
            &&& announced.peer_id == described.peer_id
            &&& announced.peer_id != local_peer_id
            &&& dial_address(announced.addr, from, announced.peer_id) is Some
        }),
    ensures
        ({
            let answer = packet.answers[i];
            let announced = peer::announcement(
                peer::txt_strings(packet.additionals, answer.data->Ptr_0)[m],
            )->0;
            discoveries(response_of(packet, from), now, local_peer_id).contains(
                DiscoveryView {
                    peer_id: announced.peer_id,
                    addr: dial_address(announced.addr, from, announced.peer_id)->0,
                    expiration: expiration(now, answer.ttl),
                },
            )
        }),
{
    let answer = packet.answers[i];
    let target = answer.data->Ptr_0;
    let announced = peer::announcement(peer::txt_strings(packet.additionals, target)[m])->0;
    let described = peer::described_peer(packet, target, answer.ttl)->0;
    let response = response_of(packet, from);
    peer::law_announced_is_reported(packet, target, answer.ttl, m);
    law_answered_peer_is_reported(packet, i);
    let k = choose|k: int| 0 <= k < response.peers.len() && response.peers[k] == described;
    let j = choose|j: int| 0 <= j < described.addrs.len() && described.addrs[j] == announced.addr;
    law_dialable_is_discovered(response, now, local_peer_id, k, j);
}

/// What is discovered was announced: by a text record of a name that an answer under
/// the service name points to, for the peer that is discovered.
pub proof fn law_discovered_was_announced(
    packet: MessageView,
    from: SocketAddr,
    now: Instant,
    local_peer_id: PeerId,
    k: int,
)
    requires
        0 <= k < discoveries(response_of(packet, from), now, local_peer_id).len(),
    ensures
        exists|i: int, m: int|
            #![trigger packet.answers[i], peer::txt_strings(
                packet.additionals,
                packet.answers[i].data->Ptr_0,
            )[m]]
            {
                let found = discoveries(response_of(packet, from), now, local_peer_id)[k];
                let answer = packet.answers[i];
                let strings = peer::txt_strings(packet.additionals, answer.data->Ptr_0);
                &&& 0 <= i < packet.answers.len()
                &&& answer.name.text() == SERVICE_NAME_FQDN@
                &&& answer.data is Ptr
                &&& 0 <= m < strings.len()
                &&& peer::announcement(strings[m]) matches Some(announced)
                &&& announced.peer_id == found.peer_id
                &&& dial_address(announced.addr, from, found.peer_id) == Some(found.addr)
                &&& found.expiration == expiration(now, answer.ttl)
            },
{
    let response = response_of(packet, from);
    let found = discoveries(response, now, local_peer_id)[k];
    law_discoveries_are_announced(response, now, local_peer_id, k);
    let (p, j) = choose|p: int, j: int|
        {
            &&& 0 <= p < response.peers.len()
            &&& 0 <= j < response.peers[p].addrs.len()
            &&& response.peers[p].peer_id != local_peer_id
            &&& #[trigger] discovery(
                response.peers[p],
                response.peers[p].addrs[j],
                response.from,
                now,
            ) == Some(found)
        };
    law_reported_peer_is_answered(packet, p);
    let i = choose|i: int|
        0 <= i < packet.answers.len() && answered_peer(packet, #[trigger] packet.answers[i]) == Some(
            response.peers[p],
        );
    let answer = packet.answers[i];
    let target = answer.data->Ptr_0;
    peer::law_reported_is_announced(packet, target, answer.ttl, j);
    let strings = peer::txt_strings(packet.additionals, target);
    let described = peer::described_peer(packet, target, answer.ttl)->0;
    let m = choose|m: int|
        0 <= m < strings.len() && peer::announcement(#[trigger] strings[m]) == Some(
            peer::AnnouncementView { addr: described.addrs[j], peer_id: described.peer_id },
        );
    assert(described.ttl == answer.ttl);
    assert(packet.answers[i].data->Ptr_0 == target);
    assert(peer::announcement(strings[m]) is Some);
}

/// Answers that come later add peers behind those that are already reported.
pub proof fn law_more_answers(
    packet: MessageView,
    longer: MessageView,
    more: Seq<RecordView>,
    from: SocketAddr,
)
    requires
        longer.answers == packet.answers + more,
        longer.additionals == packet.additionals,
    ensures
        response_of(longer, from).peers == response_of(packet, from).peers + answered_peers(
            packet,
            more,
        ),
{
    let f = |answer: RecordView| answered_peer(packet, answer);
    let g = |answer: RecordView| answered_peer(longer, answer);
    assert(f =~= g);
    seqs::lemma_filter_map_add(packet.answers, more, f);
}

/// The discoveries from the peers of one response behind those of another are the
/// discoveries from the one behind those from the other.
pub proof fn law_peers_add_up(
    a: Seq<PeerView>,
    b: Seq<PeerView>,
    from: SocketAddr,
    now: Instant,
    local_peer_id: PeerId,
)
    ensures
        discoveries(ResponseView { peers: a + b, from }, now, local_peer_id) == discoveries(
            ResponseView { peers: a, from },
            now,
            local_peer_id,
        ) + discoveries(ResponseView { peers: b, from }, now, local_peer_id),
{
    seqs::lemma_flat_map_add(
        a,
        b,
        |peer: PeerView| peer_discoveries(peer, from, now, local_peer_id),
    );
}

/// Which peer is the local one decides only whether that peer is discovered: two
/// choices give the same discoveries of all other peers.
pub proof fn law_local_peer_left_out(response: ResponseView, now: Instant, a: PeerId, b: PeerId)
    ensures
        discoveries(response, now, a).filter(|d: DiscoveryView| d.peer_id != b) == discoveries(
            response,
            now,
            b,
        ).filter(|d: DiscoveryView| d.peer_id != a),
{
    let without_a = |d: DiscoveryView| d.peer_id != a;
    let without_b = |d: DiscoveryView| d.peer_id != b;
    let for_a = |peer: PeerView| peer_discoveries(peer, response.from, now, a);
    let for_b = |peer: PeerView| peer_discoveries(peer, response.from, now, b);
    assert forall|i: int| 0 <= i < response.peers.len() implies for_a(
        #[trigger] response.peers[i],
    ).filter(without_b) == for_b(response.peers[i]).filter(without_a) by {
        let peer = response.peers[i];
        lemma_discoveries_are_of_peer(peer, response.from, now, a);
        lemma_discoveries_are_of_peer(peer, response.from, now, b);
        seqs::lemma_filter_all_or_none(for_a(peer), without_b);
        seqs::lemma_filter_all_or_none(for_b(peer), without_a);
    }
    seqs::lemma_flat_map_filtered(response.peers, for_a, without_b, for_b, without_a);
}

proof fn lemma_discoveries_are_of_peer(
    peer: PeerView,
    from: SocketAddr,
    now: Instant,
    local_peer_id: PeerId,
)
    ensures
        forall|k: int|
            0 <= k < peer_discoveries(peer, from, now, local_peer_id).len()
                ==> (#[trigger] peer_discoveries(peer, from, now, local_peer_id)[k]).peer_id
                == peer.peer_id,
{
    let all = peer_discoveries(peer, from, now, local_peer_id);
    assert forall|k: int| 0 <= k < all.len() implies (#[trigger] all[k]).peer_id == peer.peer_id by {
        let entry = |addr: Seq<ComponentView>| discovery(peer, addr, from, now);
        let j = seqs::lemma_filter_map_source(peer.addrs, entry, k);
        assert(entry(peer.addrs[j]) == Some(all[k]));
    }
}

/// A response that is read later gives the same discoveries, each of which expires
/// later by as much.
pub proof fn law_later_expires_later(
    response: ResponseView,
    now: Instant,
    later: Instant,
    local_peer_id: PeerId,
)
    requires
        now.nanos <= later.nanos,
        forall|i: int|
            0 <= i < response.peers.len() && (#[trigger] response.peers[i]).peer_id
                != local_peer_id ==> later.nanos + response.peers[i].ttl * NANOS_PER_SEC
                <= u128::MAX,
    ensures
        discoveries(response, later, local_peer_id) == discoveries(
            response,
            now,
            local_peer_id,
        ).map_values(
            |d: DiscoveryView|
                DiscoveryView {
                    peer_id: d.peer_id,
                    addr: d.addr,
                    expiration: Instant {
                        nanos: (d.expiration.nanos + (later.nanos - now.nanos)) as u128,
                    },
                },
        ),
{
    let shifted = |d: DiscoveryView|
        DiscoveryView {
            peer_id: d.peer_id,
            addr: d.addr,
            expiration: Instant {
                nanos: (d.expiration.nanos + (later.nanos - now.nanos)) as u128,
            },
        };
    let before = |peer: PeerView| peer_discoveries(peer, response.from, now, local_peer_id);
    let after = |peer: PeerView| peer_discoveries(peer, response.from, later, local_peer_id);
    assert forall|i: int| 0 <= i < response.peers.len() implies after(#[trigger] response.peers[i])
        == before(response.peers[i]).map_values(shifted) by {
        let peer = response.peers[i];
        if peer.peer_id != local_peer_id {
            seqs::lemma_filter_map_mapped(
                peer.addrs,
                |addr: Seq<ComponentView>| discovery(peer, addr, response.from, now),
                |addr: Seq<ComponentView>| discovery(peer, addr, response.from, later),
                shifted,
            );
        } else {
            assert(after(peer) =~= before(peer).map_values(shifted));
        }
    }
    seqs::lemma_flat_map_mapped(response.peers, before, after, shifted);
}

/// The value of a response is its sender and the values of its peers, in order.
pub proof fn law_response_value(response: MdnsResponse, i: int)
    ensures
        response@.from == response.from,
        response@.peers.len() == response.peers@.len(),
        0 <= i < response.peers@.len() ==> response@.peers[i] == response.peers@[i]@,
{
}

/// The value of a discovery is the peer's id, the components of the address and the
/// expiration.
pub proof fn law_discovery_value(peer_id: PeerId, addr: Multiaddr, expiration: Instant)
    ensures
        discovery_view((peer_id, addr, expiration)).peer_id == peer_id,
        discovery_view((peer_id, addr, expiration)).addr == address::components(addr),
        discovery_view((peer_id, addr, expiration)).expiration == expiration,
{
}

/// What is received at a time expires the whole time to live after it, counted in
/// seconds.
pub proof fn law_expires_after_ttl(now: Instant, ttl: u32)
    requires
        now.nanos + ttl * 1_000_000_000 <= u128::MAX,
    ensures
        expiration(now, ttl).nanos == now.nanos + ttl * 1_000_000_000,
        expiration(now, ttl).nanos - now.nanos == ttl * NANOS_PER_SEC,
{
}

/// The sender of a packet is observed at its IP address and its UDP port.
pub proof fn law_observed_at_socket(from: SocketAddr)
    ensures
        observed(from) == match from {
            SocketAddr::V4(socket) => seq![
                ComponentView::Ip4(socket.ip),
                ComponentView::Udp(socket.port),
            ],
            SocketAddr::V6(socket) => seq![
                ComponentView::Ip6(socket.ip),
                ComponentView::Udp(socket.port),
            ],
        },
{
    match from {
        SocketAddr::V4(socket) => {
            assert(observed(from) =~= seq![
                ComponentView::Ip4(socket.ip),
                ComponentView::Udp(socket.port),
            ]);
        },
        SocketAddr::V6(socket) => {
            assert(observed(from) =~= seq![
                ComponentView::Ip6(socket.ip),
                ComponentView::Udp(socket.port),
            ]);
        },
    }
}

/// Two addresses disagree in family exactly if one begins with an IPv4 and the other
/// with an IPv6 address, whatever follows and whichever comes first.
pub proof fn law_families(
    a: ComponentView,
    b: ComponentView,
    rest_a: Seq<ComponentView>,
    rest_b: Seq<ComponentView>,
)
    ensures
        families_agree(seq![a] + rest_a, seq![b] + rest_b) <==> !(a is Ip4 && b is Ip6) && !(a is Ip6
            && b is Ip4),
        families_agree(Seq::empty(), seq![b] + rest_b),
        families_agree(seq![a] + rest_a, Seq::empty()),
        families_agree(Seq::empty(), Seq::empty()),
{
    assert((seq![a] + rest_a)[0] == a);
    assert((seq![b] + rest_b)[0] == b);
}

/// Without a scope, a dialed address is the announced one with the sender's IP address
/// for its host and the peer id at its end, where it does not end in that id already.
pub proof fn law_dial_without_scope(addr: Seq<ComponentView>, from: SocketAddr, peer_id: PeerId)
    requires
        dial_address(addr, from, peer_id) is Some,
        from matches SocketAddr::V6(socket) ==> socket.scope_id == 0,
    ensures
        ({
            let host = match from {
                SocketAddr::V4(socket) => ComponentView::Ip4(socket.ip),
                SocketAddr::V6(socket) => ComponentView::Ip6(socket.ip),
            };
            let moved = addr.update(0, host);
            dial_address(addr, from, peer_id)->0 == if addr.len() > 1 && addr.last()
                == ComponentView::P2p(peer_id) {
                moved
            } else {
                moved.push(ComponentView::P2p(peer_id))
            }
        }),
{
}

/// From a scoped socket, a dialed address holds a zone exactly directly behind its
/// first component that is an IPv6 address in `fe80::/10`, wherever that stands and
/// whatever follows, and the zone is the scope id in decimal.
pub proof fn law_dial_has_zone(
    addr: Seq<ComponentView>,
    from: SocketAddr,
    peer_id: PeerId,
    i: int,
)
    requires
        dial_address(addr, from, peer_id) is Some,
        from matches SocketAddr::V6(socket) && socket.scope_id != 0,
        0 <= i < dial_address(addr, from, peer_id)->0.len(),
    ensures
        ({
            let dialed = dial_address(addr, from, peer_id)->0;
            &&& dialed[i] is Ip6zone <==> {
                &&& i > 0
                &&& dialed[i - 1] matches ComponentView::Ip6(ip)
                &&& 0xfe80 <= ip.segments[0] <= 0xfebf
                &&& forall|j: int|
                    0 <= j < i - 1 ==> !(#[trigger] dialed[j] matches ComponentView::Ip6(ip)
                        && 0xfe80 <= ip.segments[0] <= 0xfebf)
            }
            &&& dialed[i] matches ComponentView::Ip6zone(text) ==> text == zone::decimal(
                from->V6_0.scope_id as nat,
            )
            &&& ({
                &&& dialed[i] matches ComponentView::Ip6(ip)
                &&& 0xfe80 <= ip.segments[0] <= 0xfebf
                &&& forall|j: int|
                    0 <= j < i ==> !(#[trigger] dialed[j] matches ComponentView::Ip6(ip) && 0xfe80
                        <= ip.segments[0] <= 0xfebf)
            }) ==> i + 1 < dialed.len()
        }),
{
    let moved = addr.update(0, address::ip_component(from.ip()));
    let with_zone = zone::zoned(moved, from);
    let dialed = dial_address(addr, from, peer_id)->0;
    assert(forall|j: int| 0 <= j < with_zone.len() ==> #[trigger] dialed[j] == with_zone[j]);
    assert(forall|j: int| 0 <= j < with_zone.len() ==> #[trigger] with_zone[j] == dialed[j]);
    zone::law_zone_keeps_first(moved, from);
    if i < with_zone.len() {
        zone::law_zone_behind_link_local(moved, from, i);
    } else {
        zone::law_zone_behind_link_local(moved, from, i - 1);
    }
}

/// A sender with a link-local IPv6 address and a scope is dialed at that address in
/// that scope: the zone follows it immediately.
pub proof fn law_link_local_sender_is_zoned(
    addr: Seq<ComponentView>,
    from: SocketAddr,
    peer_id: PeerId,
)
    requires
        dial_address(addr, from, peer_id) is Some,
        from matches SocketAddr::V6(socket) && socket.scope_id != 0 && 0xfe80
            <= socket.ip.segments[0] <= 0xfebf,
    ensures
        dial_address(addr, from, peer_id)->0.len() > 1,
        dial_address(addr, from, peer_id)->0[0] == ComponentView::Ip6(from->V6_0.ip),
        dial_address(addr, from, peer_id)->0[1] == ComponentView::Ip6zone(
            zone::decimal(from->V6_0.scope_id as nat),
        ),
{
    law_dial_keeps_family(addr, from, peer_id);
    law_dial_has_zone(addr, from, peer_id, 0);
    law_dial_has_zone(addr, from, peer_id, 1);
}

/// From a scoped socket, a dialed address is, zones aside, the announced one with the
/// sender's IP address for its host and the peer id at its end, where it does not end
/// in that id already.
pub proof fn law_scoped_dial_keeps_the_rest(
    addr: Seq<ComponentView>,
    from: SocketAddr,
    peer_id: PeerId,
)
    requires
        dial_address(addr, from, peer_id) is Some,
        from matches SocketAddr::V6(socket) && socket.scope_id != 0,
    ensures
        ({
            let moved = addr.update(0, ComponentView::Ip6(from->V6_0.ip));
            let kept = moved.filter(|c: ComponentView| !(c is Ip6zone));
            &&& kept.len() > 0
            &&& dial_address(addr, from, peer_id)->0.filter(|c: ComponentView| !(c is Ip6zone))
                == if kept.last() == ComponentView::P2p(peer_id) {
                kept
            } else {
                kept.push(ComponentView::P2p(peer_id))
            }
        }),
{
    let end = ComponentView::P2p(peer_id);
    let moved = addr.update(0, ComponentView::Ip6(from->V6_0.ip));
    let with_zone = zone::zoned(moved, from);
    lemma_end_of_zoned(moved, from);
    reveal(Seq::filter);
    assert(with_zone.push(end).drop_last() =~= with_zone);
}

/// What comes last in an address under a scoped socket: the last component that is no
/// zone, unless that is a link-local address with its zone behind it.
proof fn lemma_end_of_zoned(addr: Seq<ComponentView>, from: SocketAddr)
    requires
        from matches SocketAddr::V6(socket) && socket.scope_id != 0,
        addr.len() > 0,
        addr[0] is Ip6,
    ensures
        ({
            let kept = addr.filter(|c: ComponentView| !(c is Ip6zone));
            &&& kept.len() > 0
            &&& zone::zoned(addr, from).len() > 0
            &&& zone::zoned(addr, from).filter(|c: ComponentView| !(c is Ip6zone)) == kept
            &&& zone::zoned(addr, from).last() == kept.last() || {
                &&& zone::zoned(addr, from).last() is Ip6zone
                &&& kept.last() is Ip6
            }
        }),
{
    let pred = |c: ComponentView| !(c is Ip6zone);
    let result = zone::zoned(addr, from);
    zone::law_zone_keeps_the_rest(addr, from);
    zone::law_zone_keeps_first(addr, from);
    assert(result.filter(pred) == addr.filter(pred));
    assert(result.filter(pred).contains(result[0])) by {
        broadcast use vstd::seq_lib::group_filter_ensures;

        assert(pred(result[0]));
    }
    let i = seqs::lemma_filter_last(result, pred);
    let last = result.len() - 1;
    if i < last {
        assert(!pred(result[last]));
        zone::law_zone_behind_link_local(addr, from, last);
        if i < last - 1 {
            assert(!pred(result[last - 1]));
        }
    }
}

/// An address is dialed exactly if it begins with an IP address of the sender's family
/// or with a domain name, and does not end in the id of another peer behind its host.
/// From a scoped socket, zones at its end do not count.
pub proof fn law_dialed_exactly_if(addr: Seq<ComponentView>, from: SocketAddr, peer_id: PeerId)
    ensures
        dial_address(addr, from, peer_id) is Some <==> {
            &&& addr.len() > 0
            &&& {
                ||| addr[0] is Ip4 && from is V4
                ||| addr[0] is Ip6 && from is V6
                ||| addr[0] is Dns
                ||| addr[0] is Dns4
                ||| addr[0] is Dns6
            }
            &&& !(exists|i: int|
                {
                    &&& 0 < i < addr.len()
                    &&& #[trigger] addr[i] is P2p
                    &&& addr[i] != ComponentView::P2p(peer_id)
                    &&& i == addr.len() - 1 || {
                        &&& from matches SocketAddr::V6(socket) && socket.scope_id != 0
                        &&& forall|j: int| i < j < addr.len() ==> #[trigger] addr[j] is Ip6zone
                    }
                })
        },
{
    let host = address::ip_component(from.ip());
    if addr.len() > 0 && families_agree(addr, observed(from)) && addr[0].is_host() {
        let moved = addr.update(0, host);
        let with_zone = zone::zoned(moved, from);
        assert(address::translated(addr, observed(from)) == Some(moved));
        if from matches SocketAddr::V6(socket) && socket.scope_id != 0 {
            let pred = |c: ComponentView| !(c is Ip6zone);
            lemma_end_of_zoned(moved, from);
            let last = seqs::lemma_filter_last(moved, pred);
            assert(forall|j: int| 0 < j < addr.len() ==> #[trigger] moved[j] == addr[j]);
            assert forall|j: int| last < j < addr.len() implies #[trigger] addr[j] is Ip6zone by {
                assert(!pred(moved[j]));
            }
            if with_zone.last() is P2p && with_zone.last() != ComponentView::P2p(peer_id) {
                assert(moved[last] == with_zone.last());
                assert(last > 0);
                assert(addr[last] is P2p);
            }
            assert forall|i: int|
                {
                    &&& 0 < i < addr.len()
                    &&& #[trigger] addr[i] is P2p
                    &&& addr[i] != ComponentView::P2p(peer_id)
                    &&& i == addr.len() - 1 || forall|j: int|
                        i < j < addr.len() ==> #[trigger] addr[j] is Ip6zone
                } implies with_zone.last() == addr[i] by {
                assert(moved[i] == addr[i]);
                assert(pred(moved[i]));
                assert(i <= last);
                if i < last {
                    assert(addr[last] is Ip6zone);
                    assert(pred(moved[last]));
                }
            }
        } else {
            assert(with_zone == moved);
            if addr.len() > 1 {
                assert(moved.last() == addr[addr.len() - 1]);
            }
        }
    }
}

/// What a packet with one answer reports: the peer that the packet describes under the
/// name which the answer points to, if the answer is a pointer under the service name,
/// and nothing otherwise. The response is from the sender of the packet.
pub proof fn law_one_answer(packet: MessageView, answer: RecordView, from: SocketAddr)
    requires
        packet.answers == seq![answer],
    ensures
        response_of(packet, from).from == from,
        answer.name.text() != SERVICE_NAME_FQDN@ || !(answer.data is Ptr) ==> response_of(
            packet,
            from,
        ).peers == Seq::<PeerView>::empty(),
        answer.name.text() == SERVICE_NAME_FQDN@ ==> (answer.data matches DataView::Ptr(target)
            ==> response_of(packet, from).peers == match peer::described_peer(
            packet,
            target,
            answer.ttl,
        ) {
            Some(peer) => seq![peer],
            None => Seq::empty(),
        }),
{
    let f = |answer: RecordView| answered_peer(packet, answer);
    Seq::<RecordView>::lemma_filter_map_singleton(answer, f);
}

/// The answers of a packet report their peers one behind the other: a packet with the
/// answers of two others, and the same additional records, reports what these report.
pub proof fn law_answers_add_up(
    a: MessageView,
    b: MessageView,
    both: MessageView,
    from: SocketAddr,
)
    requires
        both.answers == a.answers + b.answers,
        both.additionals == a.additionals,
        both.additionals == b.additionals,
    ensures
        response_of(both, from).peers == response_of(a, from).peers + response_of(b, from).peers,
        both.answers.len() == 0 ==> response_of(both, from).peers == Seq::<PeerView>::empty(),
{
    let f = |answer: RecordView| answered_peer(a, answer);
    let g = |answer: RecordView| answered_peer(b, answer);
    assert(f =~= g);
    law_more_answers(a, both, b.answers, from);
}

/// What one address of one peer is discovered as: the address at which it is dialed,
/// until the peer's time to live is over. The local peer is not discovered, and neither
/// is an address that is not dialed.
pub proof fn law_one_address(
    peer: PeerView,
    addr: Seq<ComponentView>,
    from: SocketAddr,
    now: Instant,
    local_peer_id: PeerId,
)
    requires
        peer.addrs == seq![addr],
        now.nanos + peer.ttl * 1_000_000_000 <= u128::MAX,
    ensures
        ({
            let found = discoveries(
                ResponseView { peers: seq![peer], from },
                now,
                local_peer_id,
            );
            match dial_address(addr, from, peer.peer_id) {
                Some(dialed) if peer.peer_id != local_peer_id => {
                    &&& found.len() == 1
                    &&& found[0].peer_id == peer.peer_id
                    &&& found[0].addr == dialed
                    &&& found[0].expiration.nanos == now.nanos + peer.ttl * 1_000_000_000
                },
                _ => found.len() == 0,
            }
        }),
{
    let per_peer = |peer: PeerView| peer_discoveries(peer, from, now, local_peer_id);
    let entry = |addr: Seq<ComponentView>| discovery(peer, addr, from, now);
    let found = discoveries(ResponseView { peers: seq![peer], from }, now, local_peer_id);
    Seq::<PeerView>::empty().lemma_flat_map_push(per_peer, peer);
    assert(Seq::<PeerView>::empty().push(peer) =~= seq![peer]);
    assert(Seq::<PeerView>::empty().flat_map(per_peer) =~= Seq::<DiscoveryView>::empty());
    assert(found =~= per_peer(peer));
    Seq::<Seq<ComponentView>>::lemma_filter_map_singleton(addr, entry);
}

/// The addresses of a peer are discovered one behind the other: a peer with the
/// addresses of two others, of the same id and time to live, is discovered as these
/// are.
pub proof fn law_addresses_add_up(
    a: PeerView,
    b: PeerView,
    both: PeerView,
    from: SocketAddr,
    now: Instant,
    local_peer_id: PeerId,
)
    requires
        both.addrs == a.addrs + b.addrs,
        both.peer_id == a.peer_id,
        both.peer_id == b.peer_id,
        both.ttl == a.ttl,
        both.ttl == b.ttl,
    ensures
        discoveries(ResponseView { peers: seq![both], from }, now, local_peer_id) == discoveries(
            ResponseView { peers: seq![a], from },
            now,
            local_peer_id,
        ) + discoveries(ResponseView { peers: seq![b], from }, now, local_peer_id),
        both.addrs.len() == 0 ==> discoveries(
            ResponseView { peers: seq![both], from },
            now,
            local_peer_id,
        ).len() == 0,
        discoveries(ResponseView { peers: Seq::empty(), from }, now, local_peer_id).len() == 0,
{
    let per_peer = |peer: PeerView| peer_discoveries(peer, from, now, local_peer_id);
    let none = Seq::<PeerView>::empty();
    none.lemma_flat_map_push(per_peer, a);
    none.lemma_flat_map_push(per_peer, b);
    none.lemma_flat_map_push(per_peer, both);
    assert(none.push(a) =~= seq![a]);
    assert(none.push(b) =~= seq![b]);
    assert(none.push(both) =~= seq![both]);
    assert(none.flat_map(per_peer) =~= Seq::<DiscoveryView>::empty());
    let entry_a = |addr: Seq<ComponentView>| discovery(a, addr, from, now);
    let entry_b = |addr: Seq<ComponentView>| discovery(b, addr, from, now);
    let entry_both = |addr: Seq<ComponentView>| discovery(both, addr, from, now);
    assert(entry_a =~= entry_both);
    assert(entry_b =~= entry_both);
    seqs::lemma_filter_map_add(a.addrs, b.addrs, entry_both);
    assert(per_peer(both) =~= per_peer(a) + per_peer(b));
    assert(none.flat_map(per_peer) + per_peer(both) =~= per_peer(both));
    assert(none.flat_map(per_peer) + per_peer(a) =~= per_peer(a));
    assert(none.flat_map(per_peer) + per_peer(b) =~= per_peer(b));
}

} // verus!
