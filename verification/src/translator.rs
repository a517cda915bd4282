//! The translation of routes into forwarding-table entries.
//!
//! The entry of a route is a function of the route, the ARP cache and the
//! port registry alone. A route whose next hop has no ARP entry has no
//! entry; it gets one as soon as the next hop is resolved.

use crate::entries::entries_wf;
use crate::routing_table::{route_has_key, routes_wf};
use crate::types::{
    ArpEntry, MacAddress, PortId, PortInfo, RouteEntry, TableAction, TableEntry, TableKey,
};
use vstd::prelude::*;

verus! {

/// The port that a route is sent out of when no port carries the name of its
/// interface.
pub const DEFAULT_PORT: PortId = 1;

/// The destination MAC of entries for directly connected networks.
pub open spec fn local_link_mac() -> MacAddress {
    MacAddress::from_octets(seq![0x08u8, 0x00u8, 0x00u8, 0x00u8, 0x00u8, 0x01u8])
}

/// Whether port `p` is registered under the name `name`.
pub open spec fn port_named(ports: Map<PortId, PortInfo>, name: Seq<char>, p: PortId) -> bool {
    ports.contains_key(p) && ports[p].name@ == name
}

/// Whether `p` is the port that stands for the interface `name`: the lowest
/// port id registered under that name.
pub open spec fn is_port_for_interface(
    ports: Map<PortId, PortInfo>,
    name: Seq<char>,
    p: PortId,
) -> bool {
    &&& port_named(ports, name, p)
    &&& forall|q: PortId| #[trigger] port_named(ports, name, q) ==> p <= q
}

/// The port that stands for the interface `name`, if any port carries that
/// name.
pub open spec fn port_for_interface(ports: Map<PortId, PortInfo>, name: Seq<char>) -> Option<
    PortId,
> {
    if exists|p: PortId| port_named(ports, name, p) {
        Some(choose|p: PortId| is_port_for_interface(ports, name, p))
    } else {
        None
    }
}

/// The port that stands for an interface is determined by the registry.
pub proof fn lemma_port_for_interface(ports: Map<PortId, PortInfo>, name: Seq<char>, p: PortId)
    requires
        is_port_for_interface(ports, name, p),
    ensures
        port_for_interface(ports, name) == Some(p),
{
    let q = choose|q: PortId| is_port_for_interface(ports, name, q);
    assert(port_named(ports, name, q));
    assert(port_named(ports, name, p));
}

/// The forwarding-table entry that stands for a route: `None` while the
/// route's next hop has no ARP entry. A directly connected route forwards to
/// the local-link MAC. The port is the one of the route's interface, or the
/// default port where no port carries that name. The priority is the metric.
pub open spec fn translate(
    route: RouteEntry,
    arp: Map<u32, ArpEntry>,
    ports: Map<PortId, PortInfo>,
) -> Option<TableEntry> {
    let port = match port_for_interface(ports, route.interface@) {
        Some(p) => p,
        None => DEFAULT_PORT,
    };
    let key = TableKey { ipv4_dst: route.prefix, prefix_len: route.prefix_len };
    match route.next_hop {
        Some(next_hop) => if arp.contains_key(next_hop.0) {
            Some(
                TableEntry {
                    key,
                    action: TableAction::Ipv4Forward { dst_mac: arp[next_hop.0].mac, port },
                    priority: route.metric,
                },
            )
        } else {
            None
        },
        None => Some(
            TableEntry {
                key,
                action: TableAction::Ipv4Forward { dst_mac: local_link_mac(), port },
                priority: route.metric,
            },
        ),
    }
}

/// The entries that stand for the routes of a table, in table order; routes
/// that cannot be resolved are left out.
pub open spec fn translate_all(
    routes: Seq<RouteEntry>,
    arp: Map<u32, ArpEntry>,
    ports: Map<PortId, PortInfo>,
) -> Seq<TableEntry> {
    routes.filter_map(|r: RouteEntry| translate(r, arp, ports))
}

/// The key of a translated entry is the prefix of its route.
pub proof fn lemma_translate_keeps_key(
    route: RouteEntry,
    arp: Map<u32, ArpEntry>,
    ports: Map<PortId, PortInfo>,
)
    ensures
        translate(route, arp, ports) matches Some(entry) ==> entry.key == (TableKey {
            ipv4_dst: route.prefix,
            prefix_len: route.prefix_len,
        }) && entry.priority == route.metric,
{
}

/// A route that is in the table and can be resolved has its entry among the
/// translated ones.
pub proof fn lemma_translated_entry_present(
    routes: Seq<RouteEntry>,
    arp: Map<u32, ArpEntry>,
    ports: Map<PortId, PortInfo>,
    route: RouteEntry,
)
    requires
        routes.contains(route),
        translate(route, arp, ports) is Some,
    ensures
        translate_all(routes, arp, ports).contains(translate(route, arp, ports)->Some_0),
    decreases routes.len(),
{
    let f = |r: RouteEntry| translate(r, arp, ports);
    let entry = translate(route, arp, ports)->Some_0;
    let rest = routes.drop_last();
    let tail = routes.filter_map(f);
    if routes.last() == route {
        assert(tail == rest.filter_map(f) + seq![entry]);
        assert(tail[tail.len() - 1] == entry);
    } else {
        let i = choose|i: int| 0 <= i < routes.len() && routes[i] == route;
        assert(rest[i] == route);
        lemma_translated_entry_present(rest, arp, ports, route);
        let head = rest.filter_map(f);
        let j = choose|j: int| 0 <= j < head.len() && head[j] == entry;
        match f(routes.last()) {
            Some(e) => {
                assert(tail == head + seq![e]);
                assert(tail[j] == entry);
            },
            None => {},
        }
    }
}

/// The set of translated entries depends on the set of routes alone, not on
/// the order in which the routes stand in the table.
pub proof fn lemma_translate_all_ignores_order(
    first: Seq<RouteEntry>,
    second: Seq<RouteEntry>,
    arp: Map<u32, ArpEntry>,
    ports: Map<PortId, PortInfo>,
)
    requires
        first.to_set() == second.to_set(),
    ensures
        translate_all(first, arp, ports).to_set() == translate_all(second, arp, ports).to_set(),
{
    let f = |r: RouteEntry| translate(r, arp, ports);
    let a = translate_all(first, arp, ports);
    let b = translate_all(second, arp, ports);
    assert forall|e: TableEntry| a.contains(e) <==> b.contains(e) by {
        if a.contains(e) {
            first.lemma_filter_map_contains(f, e);
            let r = choose|r: RouteEntry| #[trigger] first.contains(r) && f(r) == Some(e);
            assert(first.to_set().contains(r));
            assert(second.to_set().contains(r));
            lemma_translated_entry_present(second, arp, ports, r);
        }
        if b.contains(e) {
            second.lemma_filter_map_contains(f, e);
            let r = choose|r: RouteEntry| #[trigger] second.contains(r) && f(r) == Some(e);
            assert(second.to_set().contains(r));
            assert(first.to_set().contains(r));
            lemma_translated_entry_present(first, arp, ports, r);
        }
    }
    assert(a.to_set() =~= b.to_set());
}

/// The entries that stand for a well-formed routing table form a
/// well-formed set: no prefix length above 32, no key twice.
pub proof fn lemma_translate_all_wf(
    routes: Seq<RouteEntry>,
    arp: Map<u32, ArpEntry>,
    ports: Map<PortId, PortInfo>,
)
    requires
        routes_wf(routes),
    ensures
        entries_wf(translate_all(routes, arp, ports)),
    decreases routes.len(),
{
    let f = |r: RouteEntry| translate(r, arp, ports);
    if routes.len() > 0 {
        let rest = routes.drop_last();
        let last = routes.last();
        assert forall|i: int| 0 <= i < rest.len() implies rest[i] == routes[i] by {}
        assert(routes_wf(rest)) by {
            assert forall|i: int, j: int|
                0 <= i < rest.len() && 0 <= j < rest.len() && i != j implies !route_has_key(
                #[trigger] rest[i],
                (#[trigger] rest[j]).prefix,
                rest[j].prefix_len,
            ) by {
                assert(rest[i] == routes[i] && rest[j] == routes[j]);
            }
            assert forall|i: int, j: int| 0 <= i <= j < rest.len() implies (
            #[trigger] rest[i]).metric <= (#[trigger] rest[j]).metric by {
                assert(rest[i] == routes[i] && rest[j] == routes[j]);
            }
        }
        lemma_translate_all_wf(rest, arp, ports);
        let head = rest.filter_map(f);
        match f(last) {
            Some(e) => {
                let out = routes.filter_map(f);
                assert(out == head + seq![e]);
                lemma_translate_keeps_key(last, arp, ports);
                assert forall|i: int| 0 <= i < head.len() implies (#[trigger] head[i]).key
                    != e.key by {
                    assert(head.contains(head[i]));
                    rest.lemma_filter_map_contains(f, head[i]);
                    let r = choose|r: RouteEntry|
                        #[trigger] rest.contains(r) && f(r) == Some(head[i]);
                    let j = choose|j: int| 0 <= j < rest.len() && rest[j] == r;
                    lemma_translate_keeps_key(r, arp, ports);
                    assert(routes[j] == r);
                    assert(!route_has_key(
                        routes[j],
                        routes[routes.len() - 1].prefix,
                        routes[routes.len() - 1].prefix_len,
                    ));
                }
                assert forall|i: int| 0 <= i < out.len() implies (#[trigger] out[i]).valid() by {
                    if i < head.len() {
                        assert(out[i] == head[i]);
                    }
                }
                assert forall|i: int, j: int|
                    0 <= i < out.len() && 0 <= j < out.len() && i != j implies (
                #[trigger] out[i]).key != (#[trigger] out[j]).key by {
                    if i < head.len() {
                        assert(out[i] == head[i]);
                    }
                    if j < head.len() {
                        assert(out[j] == head[j]);
                    }
                }
            },
            None => {},
        }
    }
}

} // verus!
