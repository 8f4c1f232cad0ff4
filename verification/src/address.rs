//! Multiaddresses, as the sequences of components that they are.
//!
//! [`Multiaddr`] is the type of the `multiaddr` crate and stays opaque here. Its
//! value is [`components`]; the functions below say of each operation what it does
//! to that sequence.

use libp2p_core::multiaddr::{Multiaddr, Protocol};
use libp2p_identity::PeerId;
use vstd::prelude::*;

use crate::ip::{IpAddr, Ipv4Addr, Ipv6Addr};

verus! {

/// `multiaddr::Multiaddr`, opaque.
#[verifier::external_type_specification]
#[verifier::external_body]
pub struct ExMultiaddr(Multiaddr);

/// `libp2p_identity::PeerId`, opaque. Two ids are one value here exactly when its
/// `==` holds of them.
#[verifier::external_type_specification]
#[verifier::external_body]
pub struct ExPeerId(PeerId);

/// One component of a multiaddress. Those that nothing here looks into are
/// [`Component::Other`], with the bytes that `multiaddr` encodes the component to.
#[derive(Debug, PartialEq, Eq)]
pub enum Component {
    Ip4(Ipv4Addr),
    Ip6(Ipv6Addr),
    Dns(String),
    Dns4(String),
    Dns6(String),
    Ip6zone(String),
    Udp(u16),
    P2p(PeerId),
    Other(Vec<u8>),
}

/// The mathematical value of a [`Component`].
pub enum ComponentView {
    Ip4(Ipv4Addr),
    Ip6(Ipv6Addr),
    Dns(Seq<char>),
    Dns4(Seq<char>),
    Dns6(Seq<char>),
    Ip6zone(Seq<char>),
    Udp(u16),
    P2p(PeerId),
    Other(Seq<u8>),
}

impl View for Component {
    type V = ComponentView;

    open spec fn view(&self) -> ComponentView {
        match *self {
            Component::Ip4(ip) => ComponentView::Ip4(ip),
            Component::Ip6(ip) => ComponentView::Ip6(ip),
            Component::Dns(name) => ComponentView::Dns(name@),
            Component::Dns4(name) => ComponentView::Dns4(name@),
            Component::Dns6(name) => ComponentView::Dns6(name@),
            Component::Ip6zone(zone) => ComponentView::Ip6zone(zone@),
            Component::Udp(port) => ComponentView::Udp(port),
            Component::P2p(peer) => ComponentView::P2p(peer),
            Component::Other(bytes) => ComponentView::Other(bytes@),
        }
    }
}

impl ComponentView {
    /// Whether the component names a host: an IP address or a domain name that
    /// resolves to one.
    pub open spec fn is_host(self) -> bool {
        self is Ip4 || self is Ip6 || self is Dns || self is Dns4 || self is Dns6
    }

    /// Whether the component is an IPv6 address in `fe80::/10`.
    pub open spec fn is_link_local(self) -> bool {
        self matches ComponentView::Ip6(ip) && crate::ip::link_local(ip)
    }
}

/// The component that holds an IP address.
pub open spec fn ip_component(ip: IpAddr) -> ComponentView {
    match ip {
        IpAddr::V4(ip) => ComponentView::Ip4(ip),
        IpAddr::V6(ip) => ComponentView::Ip6(ip),
    }
}

/// The components of a multiaddress, in the order in which `Multiaddr::iter`
/// yields them.
pub uninterp spec fn components(addr: Multiaddr) -> Seq<ComponentView>;

/// The components of the multiaddress that a text denotes, or `None` if it denotes
/// none: what `Multiaddr::from_str` makes of it.
pub uninterp spec fn parsed_address(text: Seq<char>) -> Option<Seq<ComponentView>>;

/// Whether a component stands in some multiaddress.
pub open spec fn occurs(component: ComponentView) -> bool {
    exists|addr: Multiaddr, i: int|
        0 <= i < components(addr).len() && #[trigger] components(addr)[i] == component
}

/// What translating `original` through `observed` gives: `original` with its host
/// replaced by that of `observed`. There is no translation unless both begin with
/// a host.
pub open spec fn translated(
    original: Seq<ComponentView>,
    observed: Seq<ComponentView>,
) -> Option<Seq<ComponentView>> {
    if original.len() > 0 && original[0].is_host() && observed.len() > 0 && observed[0].is_host() {
        Some(original.update(0, observed[0]))
    } else {
        None
    }
}

/// An address with the id of a peer at its end. There is none for an address that
/// already ends in the id of another peer.
pub open spec fn with_peer(addr: Seq<ComponentView>, peer: PeerId) -> Option<Seq<ComponentView>> {
    if addr.len() > 0 && addr.last() is P2p {
        if addr.last() == ComponentView::P2p(peer) {
            Some(addr)
        } else {
            None
        }
    } else {
        Some(addr.push(ComponentView::P2p(peer)))
    }
}

/// `PeerId::eq` decides whether two ids are the same.
pub assume_specification[ <PeerId as PartialEq>::eq ](a: &PeerId, b: &PeerId) -> (r: bool)
    ensures
        r == (*a == *b),
;

/// `Multiaddr::empty` makes an address without components.
pub assume_specification[ Multiaddr::empty ]() -> (addr: Multiaddr)
    ensures
        components(addr) == Seq::<ComponentView>::empty(),
;

/// `Multiaddr::with_p2p` appends a peer id, unless the address ends in that id
/// already; it gives the address back as an error if that ends in another id.
pub assume_specification[ Multiaddr::with_p2p ](addr: Multiaddr, id: PeerId) -> (r: std::result::Result<
    Multiaddr,
    Multiaddr,
>)
    ensures
        match r {
            Ok(extended) => with_peer(components(addr), id) == Some(components(extended)),
            Err(same) => with_peer(components(addr), id) is None && components(same) == components(
                addr,
            ),
        },
;

/// `libp2p_swarm::_address_translation` replaces the host of `original` by the host
/// of `observed`, and gives `None` if either does not begin with one.
pub assume_specification[ libp2p_swarm::_address_translation ](
    original: &Multiaddr,
    observed: &Multiaddr,
) -> (r: Option<Multiaddr>)
    ensures
        match r {
            Some(addr) => translated(components(*original), components(*observed)) == Some(
                components(addr),
            ),
            None => translated(components(*original), components(*observed)) is None,
        },
;

/// `Multiaddr::from_str` parses a multiaddress. That it depends on the text alone
/// is all that is claimed: [`parsed_address`] names what it gives.
#[verifier::external_body]
pub(crate) fn parse_address(text: &str) -> (r: Option<Multiaddr>)
    ensures
        match r {
            Some(addr) => parsed_address(text@) == Some(components(addr)),
            None => parsed_address(text@) is None,
        },
{
    text.parse::<Multiaddr>().ok()
}

/// `Multiaddr::iter` yields the components in order.
#[verifier::external_body]
pub(crate) fn components_of(addr: &Multiaddr) -> (r: Vec<Component>)
    ensures
        r@.len() == components(*addr).len(),
        forall|i: int| 0 <= i < r@.len() ==> (#[trigger] r@[i])@ == components(*addr)[i],
{
    let component = |protocol| match protocol {
        Protocol::Ip4(ip) => Component::Ip4(Ipv4Addr { octets: ip.octets() }),
        Protocol::Ip6(ip) => Component::Ip6(Ipv6Addr { segments: ip.segments() }),
        Protocol::Dns(name) => Component::Dns(name.into_owned()),
        Protocol::Dns4(name) => Component::Dns4(name.into_owned()),
        Protocol::Dns6(name) => Component::Dns6(name.into_owned()),
        Protocol::Ip6zone(zone) => Component::Ip6zone(zone.into_owned()),
        Protocol::Udp(port) => Component::Udp(port),
        Protocol::P2p(peer) => Component::P2p(peer),
        other => Component::Other(Multiaddr::from(other).to_vec()),
    };
    addr.iter().map(component).collect()
}

/// `Multiaddr::pop` removes the last component and hands it out; of an empty
/// address it gives `None`.
#[verifier::external_body]
pub(crate) fn pop(addr: &mut Multiaddr) -> (r: Option<Component>)
    ensures
        match r {
            Some(component) => components(*old(addr)) == components(*final(addr)).push(component@),
            None => components(*old(addr)).len() == 0 && components(*final(addr)) == components(
                *old(addr),
            ),
        },
{
    addr.pop().map(|protocol| match protocol {
        Protocol::Ip4(ip) => Component::Ip4(Ipv4Addr { octets: ip.octets() }),
        Protocol::Ip6(ip) => Component::Ip6(Ipv6Addr { segments: ip.segments() }),
        Protocol::Dns(name) => Component::Dns(name.into_owned()),
        Protocol::Dns4(name) => Component::Dns4(name.into_owned()),
        Protocol::Dns6(name) => Component::Dns6(name.into_owned()),
        Protocol::Ip6zone(zone) => Component::Ip6zone(zone.into_owned()),
        Protocol::Udp(port) => Component::Udp(port),
        Protocol::P2p(peer) => Component::P2p(peer),
        other => Component::Other(Multiaddr::from(other).to_vec()),
    })
}

/// `Multiaddr::push` appends a component. A [`Component::Other`] has to come from
/// a multiaddress: its bytes are decoded by `Protocol::from_bytes`, which gives back
/// the component that they encode.
#[verifier::external_body]
pub(crate) fn push(addr: &mut Multiaddr, component: Component)
    requires
        component is Other ==> occurs(component@),
    ensures
        components(*final(addr)) == components(*old(addr)).push(component@),
{
    addr.push(match component {
        Component::Ip4(ip) => Protocol::Ip4(ip.octets.into()),
        Component::Ip6(ip) => Protocol::Ip6(ip.segments.into()),
        Component::Dns(name) => Protocol::Dns(name.into()),
        Component::Dns4(name) => Protocol::Dns4(name.into()),
        Component::Dns6(name) => Protocol::Dns6(name.into()),
        Component::Ip6zone(zone) => Protocol::Ip6zone(zone.into()),
        Component::Udp(port) => Protocol::Udp(port),
        Component::P2p(peer) => Protocol::P2p(peer),
        Component::Other(bytes) => Protocol::from_bytes(&bytes).unwrap().0.acquire(),
    })
}

/// The value of a component is of the component's kind and holds the same.
pub proof fn law_component_value(
    v4: Ipv4Addr,
    v6: Ipv6Addr,
    text: String,
    port: u16,
    peer: PeerId,
    bytes: Vec<u8>,
)
    ensures
        Component::Ip4(v4)@ == ComponentView::Ip4(v4),
        Component::Ip6(v6)@ == ComponentView::Ip6(v6),
        Component::Dns(text)@ == ComponentView::Dns(text@),
        Component::Dns4(text)@ == ComponentView::Dns4(text@),
        Component::Dns6(text)@ == ComponentView::Dns6(text@),
        Component::Ip6zone(text)@ == ComponentView::Ip6zone(text@),
        Component::Udp(port)@ == ComponentView::Udp(port),
        Component::P2p(peer)@ == ComponentView::P2p(peer),
        Component::Other(bytes)@ == ComponentView::Other(bytes@),
{
}

/// Translation swaps the host and nothing else, and undoes itself: translating back
/// through the address that was replaced gives it again.
pub proof fn law_translation_swaps_host(
    original: Seq<ComponentView>,
    observed: Seq<ComponentView>,
)
    requires
        translated(original, observed) is Some,
    ensures
        translated(original, observed)->0.len() == original.len(),
        translated(original, observed)->0[0] == observed[0],
        forall|i: int|
            0 < i < original.len() ==> #[trigger] translated(original, observed)->0[i]
                == original[i],
        translated(translated(original, observed)->0, original) == Some(original),
{
    assert(original.update(0, observed[0]).update(0, original[0]) =~= original);
}

/// An address with a peer id ends in that id, keeps what it had before it, and takes
/// the same id only once and no other.
pub proof fn law_peer_id_once(addr: Seq<ComponentView>, peer: PeerId, other: PeerId)
    ensures
        with_peer(addr, peer) matches Some(r) ==> {
            &&& r.last() == ComponentView::P2p(peer)
            &&& r == addr || r == addr.push(ComponentView::P2p(peer))
            &&& with_peer(r, peer) == Some(r)
            &&& other != peer ==> with_peer(r, other) is None
        },
        addr.len() == 0 || !(addr.last() is P2p) ==> with_peer(addr, peer) == Some(
            addr.push(ComponentView::P2p(peer)),
        ),
        with_peer(addr, peer) is None <==> addr.len() > 0 && addr.last() is P2p && addr.last()
            != ComponentView::P2p(peer),
{
}

} // verus!
