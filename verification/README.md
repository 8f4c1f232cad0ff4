# mdns_query

The receiving half of a libp2p mDNS service, verified with Verus: it reads a packet,
tells queries from responses, and derives from a response which peers can be dialed
at which addresses and for how long.

- `src/packet.rs`: what a packet is (`MdnsPacket::new_from_bytes`).
- `src/response.rs`: the peers of a response (`MdnsResponse`) and the addresses to
  dial them at (`extract_discovered`).
- `src/peer.rs`: what the text records of a packet announce (`MdnsPeer`).
- `src/zone.rs`: IPv6 zones on link-local addresses (`add_ipv6_zone`).
- `src/dns.rs`, `src/address.rs`: DNS messages and multiaddresses, with the contracts
  under which `hickory_proto`, `multiaddr`, `libp2p_identity` and `libp2p_swarm` are
  trusted.
- `src/ip.rs`, `src/time.rs`: plain addresses and times.
- `src/seqs.rs`: lemmas on sequences.
- `app/`: the same on the socket addresses and clock of std.

The functions named `law_*` state what holds of the library as a whole: that an
announced address which can be dialed is discovered and nothing else is, that an IP
address is only ever replaced by one of its own family, that adding a zone leaves the
rest of an address as it is.
