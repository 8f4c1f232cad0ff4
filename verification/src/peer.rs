//! Peers that a response reports.

use libp2p_core::multiaddr::Multiaddr;
use libp2p_identity::PeerId;
use std::str::Utf8Error;
use vstd::prelude::*;
use vstd::slice::slice_subrange;
use vstd::utf8;

use crate::address::{self, Component, ComponentView};
use crate::dns::{self, DnsMessage, MessageView, DnsName, NameView, DnsData, DataView, RecordView};
use crate::seqs;
use crate::time::{Duration, NANOS_PER_SEC};

verus! {

/// What a text record begins with that announces an address.
pub const DNSADDR_PREFIX: &'static str = "dnsaddr=";

/// A peer discovered by the service.
pub struct MdnsPeer {
    pub addrs: Vec<Multiaddr>,
    /// Id of the peer.
    pub peer_id: PeerId,
    /// TTL of the record in seconds.
    pub ttl: u32,
}

/// The mathematical value of an [`MdnsPeer`].
pub struct PeerView {
    pub addrs: Seq<Seq<ComponentView>>,
    pub peer_id: PeerId,
    pub ttl: u32,
}

impl View for MdnsPeer {
    type V = PeerView;

    open spec fn view(&self) -> PeerView {
        PeerView {
            addrs: self.addrs@.map_values(|a: Multiaddr| address::components(a)),
            peer_id: self.peer_id,
            ttl: self.ttl,
        }
    }
}

/// An address that a peer announces, without the peer id at its end, and that id.
#[derive(Debug)]
pub struct Announcement {
    pub addr: Multiaddr,
    pub peer_id: PeerId,
}

/// The mathematical value of an [`Announcement`].
pub struct AnnouncementView {
    pub addr: Seq<ComponentView>,
    pub peer_id: PeerId,
}

impl View for Announcement {
    type V = AnnouncementView;

    open spec fn view(&self) -> AnnouncementView {
        AnnouncementView { addr: address::components(self.addr), peer_id: self.peer_id }
    }
}

/// What an address announces: if it ends in a peer id, the address before it.
pub open spec fn announced_by(addr: Seq<ComponentView>) -> Option<AnnouncementView> {
    if addr.len() > 0 {
        match addr.last() {
            ComponentView::P2p(peer_id) => Some(
                AnnouncementView { addr: addr.drop_last(), peer_id },
            ),
            _ => None,
        }
    } else {
        None
    }
}

/// What a string of a text record announces: nothing, unless it decodes to
/// `dnsaddr=` and the UTF-8 text of a multiaddress that ends in a peer id.
pub open spec fn announcement(txt: Seq<u8>) -> Option<AnnouncementView> {
    let prefix = utf8::encode_utf8(DNSADDR_PREFIX@);
    match dns::character_string(txt) {
        Some(content) if prefix.is_prefix_of(content) => {
            let text = content.skip(prefix.len() as int);
            if utf8::valid_utf8(text) {
                match address::parsed_address(utf8::decode_utf8(text)) {
                    Some(addr) => announced_by(addr),
                    None => None,
                }
            } else {
                None
            }
        },
        _ => None,
    }
}

/// The strings of the text records that carry a given name, in order.
pub open spec fn txt_strings(records: Seq<RecordView>, name: NameView) -> Seq<Seq<u8>> {
    records.flat_map(
        |record: RecordView|
            match record.data {
                DataView::Txt(strings) if record.name.same_as(name) => strings,
                _ => Seq::empty(),
            },
    )
}

/// What strings announce, in order.
pub open spec fn announcements(strings: Seq<Seq<u8>>) -> Seq<AnnouncementView> {
    strings.filter_map(|txt: Seq<u8>| announcement(txt))
}

/// The addresses among announcements that are those of one peer, in order.
pub open spec fn addresses_of(all: Seq<AnnouncementView>, peer_id: PeerId) -> Seq<Seq<ComponentView>> {
    all.filter(|a: AnnouncementView| a.peer_id == peer_id).map_values(|a: AnnouncementView| a.addr)
}

/// The peer that announcements are of: the one that comes first, with all addresses
/// announced for it. What is announced for other peers is left out. Without an
/// announcement there is no peer.
pub open spec fn announced_peer(all: Seq<AnnouncementView>, ttl: u32) -> Option<PeerView> {
    if all.len() == 0 {
        None
    } else {
        Some(PeerView { addrs: addresses_of(all, all[0].peer_id), peer_id: all[0].peer_id, ttl })
    }
}

/// The peer that a message describes under a name: what its additional text records
/// of that name announce.
pub open spec fn described_peer(packet: MessageView, name: NameView, ttl: u32) -> Option<PeerView> {
    announced_peer(announcements(txt_strings(packet.additionals, name)), ttl)
}

/// `core::str::Utf8Error`, opaque.
#[verifier::external_type_specification]
#[verifier::external_body]
pub struct ExUtf8Error(Utf8Error);

/// `str::from_utf8` gives the text that bytes encode, and an error exactly if they
/// are not valid UTF-8.
pub assume_specification[ std::str::from_utf8 ](v: &[u8]) -> (r: Result<&str, Utf8Error>)
    ensures
        match r {
            Ok(text) => utf8::valid_utf8(v@) && text@ == utf8::decode_utf8(v@),
            Err(_) => !utf8::valid_utf8(v@),
        },
;

fn starts_with(bytes: &[u8], prefix: &[u8]) -> (r: bool)
    ensures
        r == prefix@.is_prefix_of(bytes@),
{
    if bytes.len() < prefix.len() {
        return false;
    }
    for i in 0..prefix.len()
        invariant
            prefix@.len() <= bytes@.len(),
            forall|j: int| 0 <= j < i ==> prefix@[j] == bytes@[j],
    {
        if bytes[i] != prefix[i] {
            assert(prefix@[i as int] != bytes@.take(prefix@.len() as int)[i as int]);
            return false;
        }
    }
    assert(prefix@ =~= bytes@.take(prefix@.len() as int));
    true
}

impl Announcement {
    /// Splits an address into the peer id that it ends in and what comes before.
    pub fn from_address(addr: Multiaddr) -> (r: Option<Announcement>)
        ensures
            match r {
                Some(a) => {
                    &&& announced_by(address::components(addr)) == Some(a@)
                    &&& address::components(addr) == address::components(a.addr).push(
                        ComponentView::P2p(a.peer_id),
                    )
                },
                None => {
                    &&& announced_by(address::components(addr)) is None
                    &&& address::components(addr).len() == 0 || !(address::components(
                        addr,
                    ).last() is P2p)
                },
            },
    {
        let mut addr = addr;
        let ghost whole = address::components(addr);
        match address::pop(&mut addr) {
            Some(Component::P2p(peer_id)) => {
                assert(whole.drop_last() =~= address::components(addr));
                assert(whole =~= address::components(addr).push(ComponentView::P2p(peer_id)));
                Some(Announcement { addr, peer_id })
            },
            _ => None,
        }
    }

    /// Reads a string of a text record.
    pub fn from_txt(txt: &[u8]) -> (r: Option<Announcement>)
        ensures
            match r {
                Some(a) => announcement(txt@) == Some(a@),
                None => announcement(txt@) is None,
            },
    {
        let content = match dns::decode_character_string(txt) {
            Ok(content) => content,
            Err(_) => return None,
        };
        let prefix = DNSADDR_PREFIX.as_bytes();
        if !starts_with(content, prefix) {
            return None;
        }
        let text = slice_subrange(content, prefix.len(), content.len());
        assert(text@ =~= content@.skip(prefix@.len() as int));
        let text = match std::str::from_utf8(text) {
            Ok(text) => text,
            Err(_) => return None,
        };
        match address::parse_address(text) {
            Some(addr) => Announcement::from_address(addr),
            None => None,
        }
    }
}

/// The strings of the text records among the additional records that carry a name.
fn matching_strings<'a>(packet: &'a DnsMessage, name: &DnsName) -> (r: Vec<&'a Vec<u8>>)
    requires
        packet@.wf(),
        name@.wf(),
    ensures
        r@.map_values(|txt: &Vec<u8>| txt@) == txt_strings(packet@.additionals, name@),
{
    let mut strings: Vec<&'a Vec<u8>> = Vec::new();
    let ghost records = packet@.additionals;
    let ghost view = |txt: &Vec<u8>| txt@;
    assert(txt_strings(records.take(0), name@) =~= Seq::<Seq<u8>>::empty());
    for i in 0..packet.additionals.len()
        invariant
            packet@.wf(),
            name@.wf(),
            records == packet@.additionals,
            view == (|txt: &Vec<u8>| txt@),
            strings@.map_values(view) == txt_strings(records.take(i as int), name@),
    {
        let record = &packet.additionals[i];
        let ghost before = strings@.map_values(view);
        assert(records[i as int] == record@);
        proof {
            let per_record = |record: RecordView|
                match record.data {
                    DataView::Txt(strings) if record.name.same_as(name@) => strings,
                    _ => Seq::<Seq<u8>>::empty(),
                };
            records.lemma_flat_map_take_append(per_record, i as int);
        }
        if dns::same_name(&record.name, name) {
            if let DnsData::Txt(txt) = &record.data {
                let ghost added = txt@.map_values(|s: Vec<u8>| s@);
                for j in 0..txt.len()
                    invariant
                        view == (|txt: &Vec<u8>| txt@),
                        added == txt@.map_values(|s: Vec<u8>| s@),
                        strings@.map_values(view) == before + added.take(j as int),
                {
                    let ghost so_far = strings@;
                    strings.push(&txt[j]);
                    assert(strings@.map_values(view) =~= so_far.map_values(view).push(
                        added[j as int],
                    ));
                    assert(added.take(j + 1) =~= added.take(j as int).push(added[j as int]));
                    assert(before + added.take(j + 1) =~= (before + added.take(j as int)).push(
                        added[j as int],
                    ));
                }
                assert(added.take(txt@.len() as int) =~= added);
            }
        }
    }
    assert(records.take(records.len() as int) =~= records);
    strings
}

impl MdnsPeer {
    /// The peer that announcements are of.
    pub fn from_announcements(all: Vec<Announcement>, ttl: u32) -> (r: Option<MdnsPeer>)
        ensures
            match r {
                Some(peer) => {
                    &&& announced_peer(all@.map_values(|a: Announcement| a@), ttl) == Some(peer@)
                    &&& all@.len() > 0
                    &&& peer.peer_id == all@[0].peer_id
                    &&& peer.ttl == ttl
                },
                None => all@.len() == 0,
            },
    {
        if all.len() == 0 {
            return None;
        }
        let peer_id = all[0].peer_id;
        let ghost views = all@.map_values(|a: Announcement| a@);
        let mut addrs: Vec<Multiaddr> = Vec::new();
        proof {
            reveal(Seq::filter);
            assert(views.take(0) =~= Seq::<AnnouncementView>::empty());
        }
        for a in it: all
            invariant
                it.seq() == all@,
                views == all@.map_values(|a: Announcement| a@),
                addrs@.map_values(|a: Multiaddr| address::components(a)) == addresses_of(
                    views.take(it.index()),
                    peer_id,
                ),
        {
            let ghost k = it.index();
            let ghost before = addrs@.map_values(|a: Multiaddr| address::components(a));
            proof {
                reveal(Seq::filter);
                assert(views.take(k + 1).drop_last() =~= views.take(k));
                assert(views[k] == a@);
            }
            if a.peer_id == peer_id {
                addrs.push(a.addr);
                assert(addrs@.map_values(|a: Multiaddr| address::components(a)) =~= before.push(
                    views[k].addr,
                ));
                assert(addresses_of(views.take(k + 1), peer_id) =~= addresses_of(
                    views.take(k),
                    peer_id,
                ).push(views[k].addr));
            }
        }
        assert(views.take(views.len() as int) =~= views);
        Some(MdnsPeer { addrs, peer_id, ttl })
    }

    /// Creates a new `MdnsPeer` based on the provided packet, for the name that one of
    /// its answers points to.
    pub fn new(packet: &DnsMessage, record_value: &DnsName, ttl: u32) -> (r: Option<MdnsPeer>)
        requires
            packet@.wf(),
            record_value@.wf(),
        ensures
            match r {
                Some(peer) => {
                    &&& described_peer(packet@, record_value@, ttl) == Some(peer@)
                    &&& peer.ttl == ttl
                },
                None => described_peer(packet@, record_value@, ttl) is None,
            },
    {
        let strings = matching_strings(packet, record_value);
        let ghost texts = strings@.map_values(|txt: &Vec<u8>| txt@);
        let mut all: Vec<Announcement> = Vec::new();
        for i in 0..strings.len()
            invariant
                texts == strings@.map_values(|txt: &Vec<u8>| txt@),
                all@.map_values(|a: Announcement| a@) == announcements(texts.take(i as int)),
        {
            proof {
                assert(texts.take(i + 1).drop_last() =~= texts.take(i as int));
                assert(texts[i as int] == strings[i as int]@);
            }
            if let Some(a) = Announcement::from_txt(strings[i]) {
                all.push(a);
                assert(all@.map_values(|a: Announcement| a@) =~= announcements(
                    texts.take(i + 1),
                ));
            }
        }
        assert(texts.take(texts.len() as int) =~= texts);
        MdnsPeer::from_announcements(all, ttl)
    }

    /// Returns the id of the peer.
    pub fn id(&self) -> (id: &PeerId)
        ensures
            *id == self.peer_id,
    {
        &self.peer_id
    }

    /// Returns the requested time-to-live for the record.
    pub fn ttl(&self) -> (ttl: Duration)
        ensures
            ttl.nanos == self.ttl * NANOS_PER_SEC,
            ttl.nanos == self.ttl * 1_000_000_000,
    {
        Duration::from_secs(self.ttl as u64)
    }

    /// Returns the list of addresses the peer says it is listening on.
    ///
    /// Filters out invalid addresses.
    pub fn addresses(&self) -> (addrs: &Vec<Multiaddr>)
        ensures
            *addrs == self.addrs,
    {
        &self.addrs
    }
}

/// Every address of a described peer was announced for that peer.
pub proof fn law_reported_is_announced(packet: MessageView, name: NameView, ttl: u32, k: int)
    requires
        described_peer(packet, name, ttl) is Some,
        0 <= k < described_peer(packet, name, ttl)->0.addrs.len(),
    ensures
        exists|m: int|
            0 <= m < txt_strings(packet.additionals, name).len() && announcement(
                #[trigger] txt_strings(packet.additionals, name)[m],
            ) == Some(
                AnnouncementView {
                    addr: described_peer(packet, name, ttl)->0.addrs[k],
                    peer_id: described_peer(packet, name, ttl)->0.peer_id,
                },
            ),
{
    let strings = txt_strings(packet.additionals, name);
    let all = announcements(strings);
    let peer_id = all[0].peer_id;
    let pred = |a: AnnouncementView| a.peer_id == peer_id;
    let own = all.filter(pred);
    assert(own.contains(own[k]));
    all.lemma_filter_contains_rev(pred, own[k]);
    assert(pred(own[k])) by {
        broadcast use vstd::seq_lib::group_filter_ensures;

    }
    let n = choose|n: int| 0 <= n < all.len() && all[n] == own[k];
    let m = seqs::lemma_filter_map_source(strings, |txt: Seq<u8>| announcement(txt), n);
    assert(announcement(strings[m]) == Some(own[k]));
}

/// Every address announced for a described peer is one of its addresses.
pub proof fn law_announced_is_reported(packet: MessageView, name: NameView, ttl: u32, m: int)
    requires
        0 <= m < txt_strings(packet.additionals, name).len(),
        announcement(txt_strings(packet.additionals, name)[m]) is Some,
    ensures
        described_peer(packet, name, ttl) is Some,
        announcement(txt_strings(packet.additionals, name)[m])->0.peer_id == described_peer(
            packet,
            name,
            ttl,
        )->0.peer_id ==> described_peer(packet, name, ttl)->0.addrs.contains(
            announcement(txt_strings(packet.additionals, name)[m])->0.addr,
        ),
{
    let strings = txt_strings(packet.additionals, name);
    let all = announcements(strings);
    let a = announcement(strings[m])->0;
    let n = seqs::lemma_filter_map_target(strings, |txt: Seq<u8>| announcement(txt), m);
    let peer_id = all[0].peer_id;
    if a.peer_id == peer_id {
        let pred = |a: AnnouncementView| a.peer_id == peer_id;
        let own = all.filter(pred);
        assert(own.contains(a)) by {
            broadcast use vstd::seq_lib::group_filter_ensures;

            assert(pred(all[n]));
        }
        let k = choose|k: int| 0 <= k < own.len() && own[k] == a;
        assert(described_peer(packet, name, ttl)->0.addrs[k] == a.addr);
    }
}

/// A packet describes no peer under a name unless one of the name's strings is an
/// announcement.
pub proof fn law_no_announcement_no_peer(packet: MessageView, name: NameView, ttl: u32)
    requires
        forall|m: int|
            0 <= m < txt_strings(packet.additionals, name).len() ==> announcement(
                #[trigger] txt_strings(packet.additionals, name)[m],
            ) is None,
    ensures
        described_peer(packet, name, ttl) is None,
{
    let strings = txt_strings(packet.additionals, name);
    let all = announcements(strings);
    if all.len() > 0 {
        let m = seqs::lemma_filter_map_source(strings, |txt: Seq<u8>| announcement(txt), 0);
        assert(announcement(strings[m]) is None);
    }
}

/// The first announcement decides which peer is described, and the record's time to
/// live is the peer's.
pub proof fn law_first_announcement_decides(
    packet: MessageView,
    name: NameView,
    ttl: u32,
    m: int,
)
    requires
        0 <= m < txt_strings(packet.additionals, name).len(),
        announcement(txt_strings(packet.additionals, name)[m]) is Some,
        forall|n: int|
            0 <= n < m ==> announcement(#[trigger] txt_strings(packet.additionals, name)[n]) is None,
    ensures
        described_peer(packet, name, ttl) is Some,
        described_peer(packet, name, ttl)->0.peer_id == announcement(
            txt_strings(packet.additionals, name)[m],
        )->0.peer_id,
        described_peer(packet, name, ttl)->0.ttl == ttl,
{
    let strings = txt_strings(packet.additionals, name);
    let f = |txt: Seq<u8>| announcement(txt);
    seqs::lemma_filter_map_first(strings, f, m);
}

/// The case of ASCII letters in a name does not matter.
pub proof fn law_name_case_ignored(packet: MessageView, a: NameView, b: NameView, ttl: u32)
    requires
        a.same_as(b),
    ensures
        described_peer(packet, a, ttl) == described_peer(packet, b, ttl),
{
    assert forall|n: NameView| #[trigger] n.same_as(a) == n.same_as(b) by {
        if n.same_as(a) {
            assert forall|i: int| 0 <= i < n.labels.len() implies dns::same_label(
                #[trigger] n.labels[i],
                b.labels[i],
            ) by {
                assert(dns::same_label(a.labels[i], b.labels[i]));
            }
        }
        if n.same_as(b) {
            assert forall|i: int| 0 <= i < n.labels.len() implies dns::same_label(
                #[trigger] n.labels[i],
                a.labels[i],
            ) by {
                assert(dns::same_label(a.labels[i], b.labels[i]));
            }
        }
    }
    let strings_of = |name: NameView|
        |record: RecordView|
            match record.data {
                DataView::Txt(strings) if record.name.same_as(name) => strings,
                _ => Seq::<Seq<u8>>::empty(),
            };
    assert(strings_of(a) =~= strings_of(b));
    assert(txt_strings(packet.additionals, a) == packet.additionals.flat_map(strings_of(a)));
    assert(txt_strings(packet.additionals, b) == packet.additionals.flat_map(strings_of(b)));
}

/// The strings under a name are those of the text records of that name.
pub proof fn law_strings_belong_to_name(records: Seq<RecordView>, name: NameView, k: int)
    requires
        0 <= k < txt_strings(records, name).len(),
    ensures
        exists|i: int|
            {
                &&& 0 <= i < records.len()
                &&& (#[trigger] records[i]).name.same_as(name)
                &&& records[i].data matches DataView::Txt(strings) && strings.contains(
                    txt_strings(records, name)[k],
                )
            },
{
    let strings_of = |record: RecordView|
        match record.data {
            DataView::Txt(strings) if record.name.same_as(name) => strings,
            _ => Seq::<Seq<u8>>::empty(),
        };
    let (i, j) = seqs::lemma_flat_map_source(records, strings_of, k);
    assert(records[i].data->Txt_0[j] == txt_strings(records, name)[k]);
}

/// Additional records that come later add addresses behind those of the peer that is
/// already described, and change nothing else of it. Where no peer was described,
/// they alone describe one.
pub proof fn law_more_additionals(
    packet: MessageView,
    longer: MessageView,
    more: Seq<RecordView>,
    name: NameView,
    ttl: u32,
)
    requires
        longer.additionals == packet.additionals + more,
    ensures
        match described_peer(packet, name, ttl) {
            Some(peer) => described_peer(longer, name, ttl) == Some(
                PeerView {
                    addrs: peer.addrs + addresses_of(
                        announcements(txt_strings(more, name)),
                        peer.peer_id,
                    ),
                    peer_id: peer.peer_id,
                    ttl,
                },
            ),
            None => described_peer(longer, name, ttl) == announced_peer(
                announcements(txt_strings(more, name)),
                ttl,
            ),
        },
{
    let strings_of = |record: RecordView|
        match record.data {
            DataView::Txt(strings) if record.name.same_as(name) => strings,
            _ => Seq::<Seq<u8>>::empty(),
        };
    let before = announcements(txt_strings(packet.additionals, name));
    let added = announcements(txt_strings(more, name));
    seqs::lemma_flat_map_add(packet.additionals, more, strings_of);
    seqs::lemma_filter_map_add(
        txt_strings(packet.additionals, name),
        txt_strings(more, name),
        |txt: Seq<u8>| announcement(txt),
    );
    assert(announcements(txt_strings(longer.additionals, name)) == before + added);
    if before.len() == 0 {
        assert(before + added =~= added);
    } else {
        let peer_id = before[0].peer_id;
        let pred = |a: AnnouncementView| a.peer_id == peer_id;
        Seq::filter_distributes_over_add(before, added, pred);
        assert(addresses_of(before + added, peer_id) =~= addresses_of(before, peer_id)
            + addresses_of(added, peer_id));
    }
}

/// The value of a peer is its id, its time to live and the components of each of its
/// addresses, in order.
pub proof fn law_peer_value(peer: MdnsPeer, i: int)
    ensures
        peer@.peer_id == peer.peer_id,
        peer@.ttl == peer.ttl,
        peer@.addrs.len() == peer.addrs@.len(),
        0 <= i < peer.addrs@.len() ==> peer@.addrs[i] == address::components(peer.addrs@[i]),
{
}

/// The value of an announcement is its id and the components of its address.
pub proof fn law_announcement_value(a: Announcement)
    ensures
        a@.peer_id == a.peer_id,
        a@.addr == address::components(a.addr),
{
}

/// An address announces what comes before the peer id at its end, all of it: with the
/// id appended again it is the address. One that does not end in a peer id announces
/// nothing.
pub proof fn law_announced_address_and_id(
    addr: Seq<ComponentView>,
    peer_id: PeerId,
    whole: Seq<ComponentView>,
)
    ensures
        announced_by(addr.push(ComponentView::P2p(peer_id))) == Some(
            AnnouncementView { addr, peer_id },
        ),
        announced_by(whole) matches Some(a) ==> whole == a.addr.push(ComponentView::P2p(a.peer_id)),
        announced_by(whole) is None <==> whole.len() == 0 || !(whole.last() is P2p),
{
    assert(addr.push(ComponentView::P2p(peer_id)).drop_last() =~= addr);
    if announced_by(whole) is Some {
        assert(whole =~= whole.drop_last().push(whole.last()));
    }
}

/// The text of a multiaddress that ends in a peer id, with `dnsaddr=` before it,
/// announces that address for that peer, whether it stands in quotes or not.
pub proof fn law_text_is_announcement(
    text: Seq<char>,
    addr: Seq<ComponentView>,
    peer_id: PeerId,
)
    requires
        address::parsed_address(text) == Some(addr.push(ComponentView::P2p(peer_id))),
    ensures
        announcement(utf8::encode_utf8("dnsaddr="@) + utf8::encode_utf8(text)) == Some(
            AnnouncementView { addr, peer_id },
        ),
        announcement(
            seq!['"' as u8] + utf8::encode_utf8("dnsaddr="@) + utf8::encode_utf8(text) + seq![
                '"' as u8,
            ],
        ) == Some(AnnouncementView { addr, peer_id }),
{
    let prefix = utf8::encode_utf8("dnsaddr="@);
    let encoded = utf8::encode_utf8(text);
    let content = prefix + encoded;
    let quoted = seq!['"' as u8] + prefix + encoded + seq!['"' as u8];
    lemma_prefix_bytes();
    law_announced_address_and_id(addr, peer_id, addr);
    utf8::encode_utf8_valid_utf8(text);
    utf8::encode_utf8_decode_utf8(text);
    assert(content.take(prefix.len() as int) =~= prefix);
    assert(content.skip(prefix.len() as int) =~= encoded);
    assert(quoted.subrange(1, quoted.len() - 1) =~= content);
}

/// Whatever is announced was such a text: `dnsaddr=` and the text of a multiaddress
/// that consists of the announced address and the peer id, in quotes or not.
pub proof fn law_announcement_was_text(txt: Seq<u8>)
    requires
        announcement(txt) is Some,
    ensures
        exists|text: Seq<char>|
            {
                &&& #[trigger] address::parsed_address(text) == Some(
                    announcement(txt)->0.addr.push(
                        ComponentView::P2p(announcement(txt)->0.peer_id),
                    ),
                )
                &&& txt == utf8::encode_utf8("dnsaddr="@) + utf8::encode_utf8(text) || txt == seq![
                    '"' as u8,
                ] + utf8::encode_utf8("dnsaddr="@) + utf8::encode_utf8(text) + seq!['"' as u8]
            },
{
    let prefix = utf8::encode_utf8("dnsaddr="@);
    let content = dns::character_string(txt)->0;
    let encoded = content.skip(prefix.len() as int);
    let text = utf8::decode_utf8(encoded);
    let parsed = address::parsed_address(text)->0;
    utf8::decode_utf8_encode_utf8(encoded);
    law_announced_address_and_id(parsed, announcement(txt)->0.peer_id, parsed);
    assert(content =~= prefix + encoded);
    if content != txt {
        assert(txt =~= seq!['"' as u8] + prefix + encoded + seq!['"' as u8]);
    }
    assert(address::parsed_address(text) == Some(parsed));
}

proof fn lemma_prefix_bytes()
    ensures
        utf8::encode_utf8("dnsaddr="@).len() == 8,
        utf8::encode_utf8("dnsaddr="@)[0] == 'd' as u8,
{
    reveal_strlit("dnsaddr=");
    utf8::is_ascii_chars_encode_utf8("dnsaddr="@);
}

/// All strings of every text record of a name are read, in order, whatever the
/// record's own time to live is; no other record has any part.
pub proof fn law_strings_of_records(
    a: Seq<RecordView>,
    b: Seq<RecordView>,
    record: RecordView,
    name: NameView,
)
    ensures
        txt_strings(Seq::empty(), name) == Seq::<Seq<u8>>::empty(),
        txt_strings(a + b, name) == txt_strings(a, name) + txt_strings(b, name),
        record.name.same_as(name) ==> (record.data matches DataView::Txt(strings) ==> txt_strings(
            seq![record],
            name,
        ) == strings),
        !record.name.same_as(name) || !(record.data is Txt) ==> txt_strings(seq![record], name)
            == Seq::<Seq<u8>>::empty(),
{
    let strings_of = |record: RecordView|
        match record.data {
            DataView::Txt(strings) if record.name.same_as(name) => strings,
            _ => Seq::<Seq<u8>>::empty(),
        };
    assert(Seq::<RecordView>::empty().flat_map(strings_of) =~= Seq::<Seq<u8>>::empty());
    seqs::lemma_flat_map_add(a, b, strings_of);
    Seq::<RecordView>::empty().lemma_flat_map_push(strings_of, record);
    assert(Seq::<RecordView>::empty().push(record) =~= seq![record]);
    assert(txt_strings(seq![record], name) =~= strings_of(record));
}

/// Every string of a text record of the name is read.
pub proof fn law_string_of_name_is_read(records: Seq<RecordView>, name: NameView, i: int, j: int)
    requires
        0 <= i < records.len(),
        records[i].name.same_as(name),
        records[i].data matches DataView::Txt(strings) && 0 <= j < strings.len(),
    ensures
        txt_strings(records, name).contains(records[i].data->Txt_0[j]),
{
    let strings_of = |record: RecordView|
        match record.data {
            DataView::Txt(strings) if record.name.same_as(name) => strings,
            _ => Seq::<Seq<u8>>::empty(),
        };
    let k = seqs::lemma_flat_map_target(records, strings_of, i, j);
    assert(txt_strings(records, name)[k] == records[i].data->Txt_0[j]);
}

/// Announcements one by one: the first makes the peer, each later one of that peer
/// adds its address at the end, and one of another peer changes nothing.
pub proof fn law_one_more_announcement(
    all: Seq<AnnouncementView>,
    next: AnnouncementView,
    ttl: u32,
)
    ensures
        announced_peer(Seq::empty(), ttl) is None,
        announced_peer(all.push(next), ttl) == Some(
            match announced_peer(all, ttl) {
                None => PeerView { addrs: seq![next.addr], peer_id: next.peer_id, ttl },
                Some(peer) => if next.peer_id == peer.peer_id {
                    PeerView { addrs: peer.addrs.push(next.addr), peer_id: peer.peer_id, ttl }
                } else {
                    peer
                },
            },
        ),
        announced_peer(all, ttl) matches Some(peer) ==> peer.ttl == ttl,
{
    let longer = all.push(next);
    let peer_id = longer[0].peer_id;
    reveal(Seq::filter);
    assert(longer.drop_last() =~= all);
    if all.len() == 0 {
        assert(all.filter(|a: AnnouncementView| a.peer_id == peer_id) =~= Seq::<
            AnnouncementView,
        >::empty());
        assert(addresses_of(longer, peer_id) =~= seq![next.addr]);
    } else if next.peer_id == peer_id {
        assert(addresses_of(longer, peer_id) =~= addresses_of(all, peer_id).push(next.addr));
    } else {
        assert(addresses_of(longer, peer_id) =~= addresses_of(all, peer_id));
    }
}

/// Records one by one. Without additional records no peer is described. A record of
/// another name, or one that is no text, changes nothing. Neither does a string that
/// announces nothing. The first announcement makes the peer, each later one of that
/// peer adds its address at the end, and one of another peer changes nothing.
pub proof fn law_one_more_record(
    packet: MessageView,
    longer: MessageView,
    record: RecordView,
    name: NameView,
    ttl: u32,
)
    requires
        longer.additionals == packet.additionals.push(record),
    ensures
        !record.name.same_as(name) || !(record.data is Txt) ==> described_peer(longer, name, ttl)
            == described_peer(packet, name, ttl),
        record.data matches DataView::Txt(strings) ==> strings.len() == 0 ==> described_peer(
            longer,
            name,
            ttl,
        ) == described_peer(packet, name, ttl),
        record.data matches DataView::Txt(strings) ==> record.name.same_as(name) && strings.len()
            == 1 ==> described_peer(longer, name, ttl) == match announcement(strings[0]) {
            None => described_peer(packet, name, ttl),
            Some(next) => match described_peer(packet, name, ttl) {
                None => Some(PeerView { addrs: seq![next.addr], peer_id: next.peer_id, ttl }),
                Some(peer) => if next.peer_id == peer.peer_id {
                    Some(PeerView { addrs: peer.addrs.push(next.addr), peer_id: peer.peer_id, ttl })
                } else {
                    Some(peer)
                },
            },
        },
{
    let f = |txt: Seq<u8>| announcement(txt);
    let before = txt_strings(packet.additionals, name);
    let added = txt_strings(seq![record], name);
    law_strings_of_records(packet.additionals, seq![record], record, name);
    assert(longer.additionals =~= packet.additionals + seq![record]);
    assert(txt_strings(longer.additionals, name) == before + added);
    if added.len() == 0 {
        assert(before + added =~= before);
    }
    if added.len() == 1 {
        assert(before + added =~= before.push(added[0]));
        assert(before.push(added[0]).drop_last() =~= before);
        if let Some(next) = announcement(added[0]) {
            assert(announcements(before.push(added[0])) =~= announcements(before).push(next));
            law_one_more_announcement(announcements(before), next, ttl);
        }
    }
}

/// A text record is read string by string: it describes what records of its name with
/// one part of its strings each, one behind the other, describe. Nothing but the
/// additional records has a part in it.
pub proof fn law_record_is_its_strings(
    packet: MessageView,
    split: MessageView,
    before: Seq<RecordView>,
    whole: RecordView,
    first: RecordView,
    second: RecordView,
    name: NameView,
    ttl: u32,
)
    requires
        packet.additionals == before.push(whole),
        split.additionals == before.push(first).push(second),
        whole.name.same_as(name),
        first.name.same_as(name),
        second.name.same_as(name),
        whole.data is Txt,
        first.data is Txt,
        second.data is Txt,
        whole.data->Txt_0 == first.data->Txt_0 + second.data->Txt_0,
    ensures
        described_peer(packet, name, ttl) == described_peer(split, name, ttl),
{
    law_strings_of_records(before, seq![whole], whole, name);
    law_strings_of_records(before, seq![first], first, name);
    law_strings_of_records(before.push(first), seq![second], second, name);
    assert(before.push(whole) =~= before + seq![whole]);
    assert(before.push(first) =~= before + seq![first]);
    assert(before.push(first).push(second) =~= before.push(first) + seq![second]);
    assert(txt_strings(packet.additionals, name) =~= txt_strings(split.additionals, name));
}

/// A packet without additional records describes no peer.
pub proof fn law_no_additionals_no_peer(packet: MessageView, name: NameView, ttl: u32)
    requires
        packet.additionals.len() == 0,
    ensures
        described_peer(packet, name, ttl) is None,
{
    law_strings_of_records(Seq::empty(), Seq::empty(), arbitrary(), name);
    assert(packet.additionals =~= Seq::<RecordView>::empty());
}

} // verus!
