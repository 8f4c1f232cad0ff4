//! IPv6 zones on discovered addresses.
//!
//! mDNS responses only carry a peer's IP and port. For a link-local IPv6 address
//! that is not enough to dial: the same address can exist on several interfaces, so
//! an `ip6zone` component has to say on which.

use libp2p_core::multiaddr::Multiaddr;
use vstd::prelude::*;

use crate::address::{self, Component, ComponentView};
use crate::ip::{self, SocketAddr};

verus! {

/// The decimal digits of a number, most significant first, without leading zeros.
pub open spec fn decimal(n: nat) -> Seq<char>
    decreases n,
{
    let digit = ('0' as nat + n % 10) as char;
    if n < 10 {
        seq![digit]
    } else {
        decimal(n / 10).push(digit)
    }
}

/// `u32::to_string` writes a number in decimal.
#[verifier::external_body]
fn decimal_text(n: u32) -> (text: String)
    ensures
        text@ == decimal(n as nat),
{
    n.to_string()
}

/// An address without its zones.
pub open spec fn without_zones(addr: Seq<ComponentView>) -> Seq<ComponentView> {
    addr.filter(|c: ComponentView| !(c is Ip6zone))
}

/// The position of the first link-local IPv6 address, or the length if there is none.
pub open spec fn first_link_local(addr: Seq<ComponentView>) -> int
    decreases addr.len(),
{
    if addr.len() == 0 || addr[0].is_link_local() {
        0
    } else {
        1 + first_link_local(addr.drop_first())
    }
}

/// An address with a zone behind its first link-local IPv6 address, or the address
/// itself if it has no such component.
pub open spec fn insert_zone(addr: Seq<ComponentView>, zone: Seq<char>) -> Seq<ComponentView> {
    let at = first_link_local(addr);
    if at < addr.len() {
        addr.insert(at + 1, ComponentView::Ip6zone(zone))
    } else {
        addr
    }
}

/// An address as it is to be dialed through the socket that received a packet from
/// `remote`. If that socket address has a scope, the zone of the address is that
/// scope; otherwise the address stays as it is.
pub open spec fn zoned(addr: Seq<ComponentView>, remote: SocketAddr) -> Seq<ComponentView> {
    match remote {
        SocketAddr::V6(remote) if remote.scope_id != 0 => insert_zone(
            without_zones(addr),
            decimal(remote.scope_id as nat),
        ),
        _ => addr,
    }
}

proof fn lemma_first_link_local_bound(addr: Seq<ComponentView>)
    ensures
        0 <= first_link_local(addr) <= addr.len(),
        first_link_local(addr) < addr.len() ==> addr[first_link_local(addr)].is_link_local(),
        forall|i: int| 0 <= i < first_link_local(addr) ==> !(#[trigger] addr[i]).is_link_local(),
    decreases addr.len(),
{
    if addr.len() > 0 && !addr[0].is_link_local() {
        let rest = addr.drop_first();
        lemma_first_link_local_bound(rest);
        assert forall|i: int| 0 <= i < first_link_local(addr) implies !(
        #[trigger] addr[i]).is_link_local() by {
            if i > 0 {
                assert(addr[i] == rest[i - 1]);
            }
        }
    }
}

/// `first_link_local` is the only position with these properties.
proof fn lemma_first_link_local_unique(addr: Seq<ComponentView>, at: int)
    requires
        0 <= at <= addr.len(),
        at < addr.len() ==> addr[at].is_link_local(),
        forall|i: int| 0 <= i < at ==> !(#[trigger] addr[i]).is_link_local(),
    ensures
        first_link_local(addr) == at,
{
    lemma_first_link_local_bound(addr);
    let found = first_link_local(addr);
    if found < at {
        assert(!addr[found].is_link_local());
    }
    if at < found {
        assert(!addr[at].is_link_local());
    }
}

/// Appending a component, to the address and to the address with its zone.
proof fn lemma_insert_zone_push(addr: Seq<ComponentView>, component: ComponentView, zone: Seq<char>)
    ensures
        first_link_local(addr) < addr.len() ==> {
            &&& insert_zone(addr.push(component), zone) == insert_zone(addr, zone).push(component)
            &&& first_link_local(addr.push(component)) < addr.push(component).len()
        },
        first_link_local(addr) == addr.len() && component.is_link_local() ==> {
            &&& insert_zone(addr.push(component), zone) == addr.push(component).push(
                ComponentView::Ip6zone(zone),
            )
            &&& first_link_local(addr.push(component)) < addr.push(component).len()
        },
        first_link_local(addr) == addr.len() && !component.is_link_local() ==> {
            &&& insert_zone(addr.push(component), zone) == addr.push(component)
            &&& first_link_local(addr.push(component)) == addr.push(component).len()
        },
{
    lemma_first_link_local_bound(addr);
    let longer = addr.push(component);
    let at = first_link_local(addr);
    assert forall|i: int| 0 <= i < at implies !(#[trigger] longer[i]).is_link_local() by {
        assert(longer[i] == addr[i]);
    }
    if at < addr.len() || component.is_link_local() {
        lemma_first_link_local_unique(longer, at);
        assert(insert_zone(longer, zone) == longer.insert(at + 1, ComponentView::Ip6zone(zone)));
        if at < addr.len() {
            assert(insert_zone(longer, zone) =~= insert_zone(addr, zone).push(component));
        } else {
            assert(insert_zone(longer, zone) =~= longer.push(ComponentView::Ip6zone(zone)));
        }
    } else {
        lemma_first_link_local_unique(longer, longer.len() as int);
    }
}

/// Add an `ip6zone` component to discovered link-local IPv6 addresses.
///
/// The UDP socket that received a response has the scope id that the address lacks;
/// it becomes the zone behind the first link-local address. Zones that the address
/// came with are dropped: they name interfaces of another host.
pub fn add_ipv6_zone(addr: Multiaddr, remote_addr: &SocketAddr) -> (r: Multiaddr)
    ensures
        address::components(r) == zoned(address::components(addr), *remote_addr),
{
    let scope_id: u32 = match *remote_addr {
        SocketAddr::V6(remote_addr) => remote_addr.scope_id,
        SocketAddr::V4(_) => return addr,
    };
    if scope_id == 0 {
        return addr;
    }
    let ghost all = address::components(addr);
    let ghost zone = decimal(scope_id as nat);
    let mut scoped = Multiaddr::empty();
    let mut added_zone = false;
    proof {
        reveal(Seq::filter);
        assert(all.take(0) =~= Seq::<ComponentView>::empty());
    }
    for protocol in protocols: address::components_of(&addr)
        invariant
            all == address::components(addr),
            zone == decimal(scope_id as nat),
            protocols.seq().len() == all.len(),
            forall|i: int| 0 <= i < all.len() ==> (#[trigger] protocols.seq()[i])@ == all[i],
            ({
                let seen = without_zones(all.take(protocols.index()));
                &&& address::components(scoped) == insert_zone(seen, zone)
                &&& added_zone == (first_link_local(seen) < seen.len())
            }),
    {
        let ghost k = protocols.index();
        let ghost seen = without_zones(all.take(k));
        proof {
            reveal(Seq::filter);
            assert(all.take(k + 1).drop_last() =~= all.take(k));
            lemma_first_link_local_bound(seen);
            lemma_insert_zone_push(seen, all[k], zone);
            assert(address::occurs(all[k]));
        }
        match protocol {
            Component::Ip6(ip) if ip::is_ipv6_link_local(&ip) && !added_zone => {
                address::push(&mut scoped, Component::Ip6(ip));
                address::push(&mut scoped, Component::Ip6zone(decimal_text(scope_id)));
                added_zone = true;
            },
            Component::Ip6zone(_) => {},
            other => address::push(&mut scoped, other),
        }
    }
    assert(all.take(all.len() as int) =~= all);
    scoped
}

/// Adding a zone neither removes nor reorders any other component.
pub proof fn law_zone_keeps_the_rest(addr: Seq<ComponentView>, remote: SocketAddr)
    ensures
        without_zones(zoned(addr, remote)) == without_zones(addr),
        zoned(addr, remote).filter(|c: ComponentView| !(c is Ip6zone)) == addr.filter(
            |c: ComponentView| !(c is Ip6zone),
        ),
{
    if let SocketAddr::V6(remote) = remote {
        if remote.scope_id != 0 {
            let bare = without_zones(addr);
            let zone = decimal(remote.scope_id as nat);
            let at = first_link_local(bare);
            lemma_no_zones_left(addr);
            lemma_without_zones_of_none(bare);
            lemma_first_link_local_bound(bare);
            if at < bare.len() {
                let front = bare.take(at + 1);
                let back = bare.skip(at + 1);
                let added = seq![ComponentView::Ip6zone(zone)];
                let pred = |c: ComponentView| !(c is Ip6zone);
                lemma_without_zones_of_none(front);
                lemma_without_zones_of_none(back);
                Seq::filter_distributes_over_add(front, added, pred);
                Seq::filter_distributes_over_add(front + added, back, pred);
                reveal_with_fuel(Seq::filter, 2);
                assert(added.filter(pred) =~= Seq::<ComponentView>::empty());
                assert(insert_zone(bare, zone) =~= front + added + back);
                assert(front + back =~= bare);
            }
        }
    }
}

/// Adding a zone leaves an IP address or domain name at the front where it is.
pub proof fn law_zone_keeps_first(addr: Seq<ComponentView>, remote: SocketAddr)
    requires
        addr.len() > 0,
        !(addr[0] is Ip6zone),
    ensures
        zoned(addr, remote).len() > 0,
        zoned(addr, remote)[0] == addr[0],
{
    lemma_without_zones_first(addr);
    lemma_first_link_local_bound(without_zones(addr));
}

/// Whatever stands in an address after a zone was added, and is no zone, stood in it
/// before.
pub proof fn law_zone_adds_only_zones(addr: Seq<ComponentView>, remote: SocketAddr)
    ensures
        forall|i: int|
            0 <= i < zoned(addr, remote).len() && !(#[trigger] zoned(addr, remote)[i] is Ip6zone)
                ==> addr.contains(zoned(addr, remote)[i]),
{
    let result = zoned(addr, remote);
    let pred = |c: ComponentView| !(c is Ip6zone);
    law_zone_keeps_the_rest(addr, remote);
    assert forall|i: int| 0 <= i < result.len() && !(#[trigger] result[i] is Ip6zone) implies
        addr.contains(result[i]) by {
        broadcast use vstd::seq_lib::group_filter_ensures;

        assert(pred(result[i]));
        assert(result.filter(pred).contains(result[i]));
        addr.lemma_filter_contains_rev(pred, result[i]);
    }
}

/// Under a scoped socket an address gets the zone of that scope behind its first
/// link-local component, and has no other: an address without such a component has
/// no zone at all.
pub proof fn law_at_most_one_zone(addr: Seq<ComponentView>, remote: SocketAddr, i: int)
    requires
        remote matches SocketAddr::V6(v6) && v6.scope_id != 0,
        0 <= i < zoned(addr, remote).len(),
    ensures
        zoned(addr, remote)[i] is Ip6zone <==> i == first_link_local(zoned(addr, remote)) + 1,
        zoned(addr, remote)[i] is Ip6zone ==> {
            &&& zoned(addr, remote)[i] == ComponentView::Ip6zone(
                decimal(remote->V6_0.scope_id as nat),
            )
            &&& zoned(addr, remote)[i - 1].is_link_local()
        },
{
    let bare = without_zones(addr);
    let zone = decimal(remote->V6_0.scope_id as nat);
    let at = first_link_local(bare);
    lemma_no_zones_left(addr);
    lemma_first_link_local_bound(bare);
    lemma_insert_zone_position(bare, zone);
    if at < bare.len() && i > at + 1 {
        assert(zoned(addr, remote)[i] == bare[i - 1]);
    }
}

/// A scoped socket gives a zone to every address with a link-local component.
pub proof fn law_link_local_gets_zone(addr: Seq<ComponentView>, remote: SocketAddr, i: int)
    requires
        remote matches SocketAddr::V6(v6) && v6.scope_id != 0,
        0 <= i < addr.len(),
        addr[i].is_link_local(),
    ensures
        zoned(addr, remote).contains(
            ComponentView::Ip6zone(decimal(remote->V6_0.scope_id as nat)),
        ),
{
    let bare = without_zones(addr);
    let pred = |c: ComponentView| !(c is Ip6zone);
    assert(bare.contains(addr[i])) by {
        broadcast use vstd::seq_lib::group_filter_ensures;

        assert(pred(addr[i]));
    }
    let j = choose|j: int| 0 <= j < bare.len() && bare[j] == addr[i];
    lemma_first_link_local_bound(bare);
    let at = first_link_local(bare);
    assert(at <= j);
    assert(zoned(addr, remote)[at + 1] == ComponentView::Ip6zone(
        decimal(remote->V6_0.scope_id as nat),
    ));
}

/// Adding the zone of one socket twice is adding it once.
pub proof fn law_zone_idempotent(addr: Seq<ComponentView>, remote: SocketAddr)
    ensures
        zoned(zoned(addr, remote), remote) == zoned(addr, remote),
{
    law_zone_keeps_the_rest(addr, remote);
}

/// An address comes through unchanged if the packet came over IPv4 or from a socket
/// address without a scope.
pub proof fn law_no_scope_no_change(addr: Seq<ComponentView>, remote: SocketAddr)
    requires
        remote matches SocketAddr::V6(v6) ==> v6.scope_id == 0,
    ensures
        zoned(addr, remote) == addr,
{
}

/// The zone tells the scope: different scopes give different zones.
pub proof fn law_zone_tells_scope(a: u32, b: u32)
    requires
        decimal(a as nat) == decimal(b as nat),
    ensures
        a == b,
{
    lemma_decimal_injective(a as nat, b as nat);
}

proof fn lemma_decimal_injective(a: nat, b: nat)
    requires
        decimal(a) == decimal(b),
    ensures
        a == b,
    decreases a,
{
    lemma_decimal_length(a);
    lemma_decimal_length(b);
    let last_a = ('0' as nat + a % 10) as char;
    let last_b = ('0' as nat + b % 10) as char;
    assert(decimal(a).last() == last_a);
    assert(decimal(b).last() == last_b);
    assert(last_a as nat == '0' as nat + a % 10);
    assert(last_b as nat == '0' as nat + b % 10);
    assert(a % 10 == b % 10);
    if a >= 10 {
        assert(decimal(a).drop_last() =~= decimal(a / 10));
        assert(decimal(b).drop_last() =~= decimal(b / 10));
        lemma_decimal_injective(a / 10, b / 10);
    }
}

proof fn lemma_decimal_length(n: nat)
    ensures
        decimal(n).len() > 0,
        n < 10 <==> decimal(n).len() == 1,
    decreases n,
{
    if n >= 10 {
        lemma_decimal_length(n / 10);
    }
}

/// What `insert_zone` does not move is the first link-local component.
proof fn lemma_insert_zone_position(addr: Seq<ComponentView>, zone: Seq<char>)
    ensures
        first_link_local(insert_zone(addr, zone)) == if first_link_local(addr) < addr.len() {
            first_link_local(addr)
        } else {
            insert_zone(addr, zone).len() as int
        },
{
    lemma_first_link_local_bound(addr);
    let at = first_link_local(addr);
    let result = insert_zone(addr, zone);
    if at < addr.len() {
        assert forall|i: int| 0 <= i < at implies !(#[trigger] result[i]).is_link_local() by {
            assert(result[i] == addr[i]);
        }
        assert(result[at] == addr[at]);
        lemma_first_link_local_unique(result, at);
    }
}

proof fn lemma_no_zones_left(addr: Seq<ComponentView>)
    ensures
        forall|i: int| 0 <= i < without_zones(addr).len() ==> !(#[trigger] without_zones(
            addr,
        )[i] is Ip6zone),
    decreases addr.len(),
{
    reveal(Seq::filter);
    if addr.len() > 0 {
        lemma_no_zones_left(addr.drop_last());
    }
}

proof fn lemma_without_zones_first(addr: Seq<ComponentView>)
    requires
        addr.len() > 0,
        !(addr[0] is Ip6zone),
    ensures
        without_zones(addr).len() > 0,
        without_zones(addr)[0] == addr[0],
    decreases addr.len(),
{
    reveal(Seq::filter);
    if addr.len() > 1 {
        lemma_without_zones_first(addr.drop_last());
    } else {
        assert(addr.drop_last() =~= Seq::<ComponentView>::empty());
    }
}

proof fn lemma_without_zones_of_none(addr: Seq<ComponentView>)
    requires
        forall|i: int| 0 <= i < addr.len() ==> !(#[trigger] addr[i] is Ip6zone),
    ensures
        without_zones(addr) == addr,
    decreases addr.len(),
{
    reveal(Seq::filter);
    if addr.len() > 0 {
        assert forall|i: int| 0 <= i < addr.drop_last().len() implies !(
        #[trigger] addr.drop_last()[i] is Ip6zone) by {
            assert(addr.drop_last()[i] == addr[i]);
        }
        lemma_without_zones_of_none(addr.drop_last());
        assert(!(addr[addr.len() - 1] is Ip6zone));
        assert(addr.drop_last().push(addr.last()) =~= addr);
    } else {
        assert(without_zones(addr) =~= addr);
    }
}

/// Decimal text reads back as the number: it is made of digits, it does not begin with
/// a zero unless it is that one digit, and its digits add up to the number.
pub proof fn law_decimal_reads_back(n: nat)
    ensures
        decimal(n).len() > 0,
        forall|i: int| 0 <= i < decimal(n).len() ==> '0' <= #[trigger] decimal(n)[i] <= '9',
        decimal(n).len() > 1 ==> decimal(n)[0] != '0',
        decimal(n).fold_left(0int, |value: int, c: char| 10 * value + (c as int - '0' as int)) == n,
    decreases n,
{
    let add_digit = |value: int, c: char| 10 * value + (c as int - '0' as int);
    let digit = ('0' as nat + n % 10) as char;
    assert(digit as int == '0' as int + n % 10);
    if n < 10 {
        reveal_with_fuel(Seq::fold_left, 2);
        assert(decimal(n).drop_last() =~= Seq::<char>::empty());
    } else {
        let rest = decimal(n / 10);
        law_decimal_reads_back(n / 10);
        lemma_decimal_length(n / 10);
        assert(decimal(n) == rest.push(digit));
        assert(decimal(n).drop_last() =~= rest);
        if rest.len() == 1 {
            assert(rest[0] == ('0' as nat + (n / 10) % 10) as char);
            assert(n / 10 > 0);
        }
    }
}

/// Under a scoped socket a zone stands in an address exactly directly behind its first
/// component that is an IPv6 address in `fe80::/10`, and it is the scope id in
/// decimal.
pub proof fn law_zone_behind_link_local(addr: Seq<ComponentView>, remote: SocketAddr, i: int)
    requires
        remote matches SocketAddr::V6(v6) && v6.scope_id != 0,
        0 <= i < zoned(addr, remote).len(),
    ensures
        zoned(addr, remote)[i] is Ip6zone <==> {
            &&& i > 0
            &&& zoned(addr, remote)[i - 1] matches ComponentView::Ip6(ip)
            &&& 0xfe80 <= ip.segments[0] <= 0xfebf
            &&& forall|j: int|
                0 <= j < i - 1 ==> !(#[trigger] zoned(addr, remote)[j] matches ComponentView::Ip6(
                    ip,
                ) && 0xfe80 <= ip.segments[0] <= 0xfebf)
        },
        zoned(addr, remote)[i] matches ComponentView::Ip6zone(text) ==> text == decimal(
            remote->V6_0.scope_id as nat,
        ),
        ({
            &&& zoned(addr, remote)[i] matches ComponentView::Ip6(ip)
            &&& 0xfe80 <= ip.segments[0] <= 0xfebf
            &&& forall|j: int|
                0 <= j < i ==> !(#[trigger] zoned(addr, remote)[j] matches ComponentView::Ip6(ip)
                    && 0xfe80 <= ip.segments[0] <= 0xfebf)
        }) ==> i + 1 < zoned(addr, remote).len(),
{
    let result = zoned(addr, remote);
    let bare = without_zones(addr);
    let zone = decimal(remote->V6_0.scope_id as nat);
    let at = first_link_local(bare);
    lemma_first_link_local_bound(bare);
    lemma_insert_zone_position(bare, zone);
    lemma_first_link_local_bound(result);
    law_at_most_one_zone(addr, remote, i);
    assert(first_link_local(result) < result.len() ==> result[first_link_local(
        result,
    )].is_link_local());
    if i == first_link_local(result) {
        assert(at < bare.len());
        assert(result.len() == bare.len() + 1);
    }
    assert forall|j: int| 0 <= j < result.len() implies (#[trigger] result[j]).is_link_local() == (
    result[j] matches ComponentView::Ip6(ip) && 0xfe80 <= ip.segments[0] <= 0xfebf) by {}
}

} // verus!
