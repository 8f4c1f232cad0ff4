//! Received packets and what they are.

use vstd::prelude::*;

use crate::dns::{
    self, MalformedPacket, DnsMessage, MessageView, DnsName, NameView, META_QUERY_SERVICE_FQDN,
    SERVICE_NAME_FQDN,
};
use crate::ip::SocketAddr;
use crate::response::{self, MdnsResponse, ResponseView};

verus! {

/// A valid mDNS packet received by the service.
pub enum MdnsPacket {
    /// A query made by a remote.
    Query(MdnsQuery),
    /// A response sent by a remote in response to one of our queries.
    Response(MdnsResponse),
    /// A request for service discovery.
    ServiceDiscovery(MdnsServiceDiscovery),
}

/// A received mDNS query.
#[derive(PartialEq, Eq)]
pub struct MdnsQuery {
    /// Sender of the address.
    pub from: SocketAddr,
    /// Id of the received DNS query. We need to pass this ID back in the results.
    pub query_id: u16,
}

/// A received mDNS service discovery query.
#[derive(PartialEq, Eq)]
pub struct MdnsServiceDiscovery {
    /// Sender of the address.
    pub from: SocketAddr,
    /// Id of the received DNS query. We need to pass this ID back in the results.
    pub query_id: u16,
}

/// The mathematical value of an [`MdnsPacket`].
pub enum PacketView {
    Query(MdnsQuery),
    Response(ResponseView),
    ServiceDiscovery(MdnsServiceDiscovery),
}

impl View for MdnsPacket {
    type V = PacketView;

    open spec fn view(&self) -> PacketView {
        match *self {
            MdnsPacket::Query(query) => PacketView::Query(query),
            MdnsPacket::Response(response) => PacketView::Response(response@),
            MdnsPacket::ServiceDiscovery(discovery) => PacketView::ServiceDiscovery(discovery),
        }
    }
}

/// What a query asks for.
#[derive(Clone, Copy, Debug, PartialEq, Eq)]
pub enum Request {
    /// The peers of the service.
    Peers,
    /// The services on the network.
    Services,
}

/// What names, as text, ask for: the peers if one of them is the service name;
/// otherwise the services if one of them is that of the meta query.
pub open spec fn requested(names: Seq<Seq<char>>) -> Option<Request> {
    if names.contains(SERVICE_NAME_FQDN@) {
        Some(Request::Peers)
    } else if names.contains(META_QUERY_SERVICE_FQDN@) {
        Some(Request::Services)
    } else {
        None
    }
}

/// The texts of names.
pub open spec fn name_texts(names: Seq<NameView>) -> Seq<Seq<char>> {
    names.map_values(|name: NameView| name.text())
}

/// What a message from `from` is: a response if it has no queries, otherwise what
/// its queries ask for, and nothing of interest if they ask for neither.
pub open spec fn classified(message: MessageView, from: SocketAddr) -> Option<PacketView> {
    if message.queries.len() == 0 {
        Some(PacketView::Response(response::response_of(message, from)))
    } else {
        match requested(name_texts(message.queries)) {
            Some(Request::Peers) => Some(
                PacketView::Query(MdnsQuery { from, query_id: message.id }),
            ),
            Some(Request::Services) => Some(
                PacketView::ServiceDiscovery(MdnsServiceDiscovery { from, query_id: message.id }),
            ),
            None => None,
        }
    }
}

fn contains_text(texts: &Vec<String>, text: &str) -> (r: bool)
    ensures
        r == texts@.map_values(|t: String| t@).contains(text@),
{
    let ghost views = texts@.map_values(|t: String| t@);
    let wanted = text.to_owned();
    for i in 0..texts.len()
        invariant
            views == texts@.map_values(|t: String| t@),
            wanted@ == text@,
            forall|j: int| 0 <= j < i ==> views[j] != text@,
    {
        if texts[i] == wanted {
            assert(views[i as int] == text@);
            return true;
        }
    }
    false
}

/// What a query for names, given as text, asks for.
pub fn requested_by(names: &Vec<String>) -> (r: Option<Request>)
    ensures
        r == requested(names@.map_values(|t: String| t@)),
{
    if contains_text(names, SERVICE_NAME_FQDN) {
        return Some(Request::Peers);
    }
    if contains_text(names, META_QUERY_SERVICE_FQDN) {
        return Some(Request::Services);
    }
    None
}

fn texts_of(names: &Vec<DnsName>) -> (r: Vec<String>)
    requires
        forall|i: int| 0 <= i < names@.len() ==> (#[trigger] names@[i])@.wf(),
    ensures
        r@.map_values(|t: String| t@) == name_texts(names@.map_values(|n: DnsName| n@)),
{
    let mut texts: Vec<String> = Vec::new();
    for i in 0..names.len()
        invariant
            forall|i: int| 0 <= i < names@.len() ==> (#[trigger] names@[i])@.wf(),
            texts@.len() == i,
            forall|j: int| 0 <= j < i ==> (#[trigger] texts@[j])@ == names@[j]@.text(),
    {
        texts.push(dns::to_utf8(&names[i]));
    }
    assert(texts@.map_values(|t: String| t@) =~= name_texts(names@.map_values(|n: DnsName| n@)));
    texts
}

impl MdnsPacket {
    /// What a DNS message from `from` is to the service: `None` if it is a query that
    /// does not concern it.
    pub fn from_message(message: &DnsMessage, from: SocketAddr) -> (r: Option<MdnsPacket>)
        requires
            message@.wf(),
        ensures
            match r {
                Some(packet) => {
                    &&& classified(message@, from) == Some(packet@)
                    &&& match packet {
                        MdnsPacket::Query(query) => query.from == from && query.query_id
                            == message.id,
                        MdnsPacket::ServiceDiscovery(discovery) => discovery.from == from
                            && discovery.query_id == message.id,
                        MdnsPacket::Response(response) => response.from == from
                            && message.queries@.len() == 0,
                    }
                },
                None => classified(message@, from) is None && message.queries@.len() > 0,
            },
    {
        if message.queries.len() == 0 {
            return Some(MdnsPacket::Response(MdnsResponse::new(message, from)));
        }
        assert forall|i: int| 0 <= i < message.queries@.len() implies (
        #[trigger] message.queries@[i])@.wf() by {
            assert(message@.queries[i].wf());
        }
        match requested_by(&texts_of(&message.queries)) {
            Some(Request::Peers) => Some(
                MdnsPacket::Query(MdnsQuery { from, query_id: message.id }),
            ),
            Some(Request::Services) => Some(
                MdnsPacket::ServiceDiscovery(MdnsServiceDiscovery { from, query_id: message.id }),
            ),
            None => None,
        }
    }

    /// What a packet received from `from` is to the service. Bytes that are no DNS
    /// message give the error that the decoder gave for them.
    pub fn new_from_bytes(buf: &[u8], from: SocketAddr) -> (r: Result<
        Option<MdnsPacket>,
        MalformedPacket,
    >)
        ensures
            match r {
                Ok(packet) => dns::decoded_message(buf@) matches Some(message) && match packet {
                    Some(packet) => {
                        &&& classified(message, from) == Some(packet@)
                        &&& match packet {
                            MdnsPacket::Query(query) => query.from == from && query.query_id
                                == message.id,
                            MdnsPacket::ServiceDiscovery(discovery) => discovery.from == from
                                && discovery.query_id == message.id,
                            MdnsPacket::Response(response) => response.from == from
                                && message.queries.len() == 0,
                        }
                    },
                    None => classified(message, from) is None && message.queries.len() > 0,
                },
                Err(malformed) => dns::decoded_message(buf@) is None && dns::rejected_with(
                    buf,
                    malformed.reason,
                ),
            },
    {
        match DnsMessage::from_vec(buf) {
            Ok(message) => Ok(MdnsPacket::from_message(&message, from)),
            Err(malformed) => Err(malformed),
        }
    }
}

impl MdnsQuery {
    /// Source address of the packet.
    pub fn remote_addr(&self) -> (addr: &SocketAddr)
        ensures
            *addr == self.from,
    {
        &self.from
    }

    /// Query id of the packet.
    pub fn query_id(&self) -> (id: u16)
        ensures
            id == self.query_id,
    {
        self.query_id
    }
}

impl MdnsServiceDiscovery {
    /// Source address of the packet.
    pub fn remote_addr(&self) -> (addr: &SocketAddr)
        ensures
            *addr == self.from,
    {
        &self.from
    }

    /// Query id of the packet.
    pub fn query_id(&self) -> (id: u16)
        ensures
            id == self.query_id,
    {
        self.query_id
    }
}

/// A message without queries is a response.
pub proof fn law_no_queries_is_response(message: MessageView, from: SocketAddr)
    requires
        message.queries.len() == 0,
    ensures
        classified(message, from) == Some(
            PacketView::Response(response::response_of(message, from)),
        ),
{
}

/// A message that asks for the service name is a query, whatever else it asks for,
/// and carries the message's id and sender.
pub proof fn law_service_name_is_query(message: MessageView, from: SocketAddr, i: int)
    requires
        0 <= i < message.queries.len(),
        message.queries[i] == dns::service_name(),
    ensures
        classified(message, from) == Some(
            PacketView::Query(MdnsQuery { from, query_id: message.id }),
        ),
{
    dns::law_service_name_text();
    assert(name_texts(message.queries)[i] == SERVICE_NAME_FQDN@);
}

/// A message that asks for the name of the meta query, and for none that reads as the
/// service name, is a service discovery, and carries the message's id and sender.
pub proof fn law_meta_query_is_discovery(message: MessageView, from: SocketAddr, i: int)
    requires
        0 <= i < message.queries.len(),
        message.queries[i] == dns::meta_query_name(),
        forall|j: int|
            0 <= j < message.queries.len() ==> (#[trigger] message.queries[j]).text()
                != SERVICE_NAME_FQDN@,
    ensures
        classified(message, from) == Some(
            PacketView::ServiceDiscovery(MdnsServiceDiscovery { from, query_id: message.id }),
        ),
{
    dns::law_meta_query_text();
    let texts = name_texts(message.queries);
    assert(texts[i] == META_QUERY_SERVICE_FQDN@);
    assert forall|j: int| 0 <= j < texts.len() implies texts[j] != SERVICE_NAME_FQDN@ by {
        assert(texts[j] == message.queries[j].text());
    }
}

/// A query for names that read as neither is of no interest, whatever else the
/// message holds.
pub proof fn law_other_queries_ignored(message: MessageView, from: SocketAddr)
    requires
        message.queries.len() > 0,
        forall|j: int|
            0 <= j < message.queries.len() ==> {
                &&& (#[trigger] message.queries[j]).text() != SERVICE_NAME_FQDN@
                &&& message.queries[j].text() != META_QUERY_SERVICE_FQDN@
            },
    ensures
        classified(message, from) is None,
{
    let texts = name_texts(message.queries);
    assert forall|j: int| 0 <= j < texts.len() implies texts[j] != SERVICE_NAME_FQDN@ && texts[j]
        != META_QUERY_SERVICE_FQDN@ by {
        assert(texts[j] == message.queries[j].text());
    }
}

/// What a message is depends neither on the order of its queries nor on how often it
/// asks for a name.
pub proof fn law_query_order_ignored(a: MessageView, b: MessageView, from: SocketAddr)
    requires
        a.id == b.id,
        a.answers == b.answers,
        a.additionals == b.additionals,
        forall|name: NameView| a.queries.contains(name) <==> b.queries.contains(name),
    ensures
        classified(a, from) == classified(b, from),
{
    lemma_texts_follow_names(a.queries, b.queries);
    lemma_texts_follow_names(b.queries, a.queries);
    if a.queries.len() == 0 && b.queries.len() > 0 {
        assert(a.queries.contains(b.queries[0]));
    }
    if a.queries.len() > 0 && b.queries.len() == 0 {
        assert(b.queries.contains(a.queries[0]));
    }
    if a.queries.len() == 0 {
        assert(a.queries =~= b.queries);
    }
}

proof fn lemma_texts_follow_names(a: Seq<NameView>, b: Seq<NameView>)
    requires
        forall|name: NameView| a.contains(name) ==> b.contains(name),
    ensures
        forall|text: Seq<char>| #[trigger]
            name_texts(a).contains(text) ==> name_texts(b).contains(text),
{
    assert forall|text: Seq<char>| #[trigger] name_texts(a).contains(text) implies name_texts(
        b,
    ).contains(text) by {
        let i = choose|i: int| 0 <= i < name_texts(a).len() && name_texts(a)[i] == text;
        assert(a.contains(a[i]));
        let j = choose|j: int| 0 <= j < b.len() && b[j] == a[i];
        assert(name_texts(b)[j] == text);
    }
}

/// The value of a packet is of the packet's kind, and keeps sender and query id.
pub proof fn law_packet_value(
    query: MdnsQuery,
    response: MdnsResponse,
    discovery: MdnsServiceDiscovery,
)
    ensures
        MdnsPacket::Query(query)@ == PacketView::Query(query),
        MdnsPacket::Response(response)@ == PacketView::Response(response@),
        MdnsPacket::ServiceDiscovery(discovery)@ == PacketView::ServiceDiscovery(discovery),
{
}

/// A message with queries is told by how their names read: it is a query exactly if one
/// reads as the service name, and otherwise a service discovery exactly if one reads as
/// the name of the meta query. Neither its answers nor its other records play a part.
pub proof fn law_queries_told_by_text(message: MessageView, from: SocketAddr)
    requires
        message.queries.len() > 0,
    ensures
        ({
            let peers = exists|i: int|
                0 <= i < message.queries.len() && (#[trigger] message.queries[i]).text()
                    == SERVICE_NAME_FQDN@;
            let services = exists|i: int|
                0 <= i < message.queries.len() && (#[trigger] message.queries[i]).text()
                    == META_QUERY_SERVICE_FQDN@;
            &&& peers <==> classified(message, from) == Some(
                PacketView::Query(MdnsQuery { from, query_id: message.id }),
            )
            &&& !peers && services <==> classified(message, from) == Some(
                PacketView::ServiceDiscovery(MdnsServiceDiscovery { from, query_id: message.id }),
            )
            &&& !peers && !services <==> classified(message, from) is None
        }),
{
    let texts = name_texts(message.queries);
    assert(forall|i: int|
        0 <= i < texts.len() ==> #[trigger] texts[i] == message.queries[i].text());
    assert(forall|i: int|
        0 <= i < texts.len() ==> texts[i] == (#[trigger] message.queries[i]).text());
}

/// Names ask for the peers exactly if the service name is among them, and otherwise for
/// the services exactly if that of the meta query is, wherever they stand.
pub proof fn law_request_told_by_names(names: Seq<Seq<char>>)
    ensures
        requested(names) == Some(Request::Peers) <==> exists|i: int|
            0 <= i < names.len() && #[trigger] names[i] == SERVICE_NAME_FQDN@,
        requested(names) is None <==> forall|i: int|
            0 <= i < names.len() ==> #[trigger] names[i] != SERVICE_NAME_FQDN@ && names[i]
                != META_QUERY_SERVICE_FQDN@,
{
}

} // verus!
