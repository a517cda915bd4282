//! The routing model: the routing table with longest-prefix-match lookup, the
//! ARP cache and the port registry, and the translation of the routes under
//! the two.

use crate::lpm::{
    address_in_prefix, covers, has_match, is_best_match, later_outranks, prefix_matches,
    PREFIX_LENGTH_OUT_OF_RANGE,
};
use crate::routing_table::{
    has_route, lemma_metric_rank_unique, lemma_route_index_unique, lemma_with_route,
    lemma_without_route, route_candidates, route_has_key, routes_wf, with_route, without_route,
};
use crate::text::str_eq;
use crate::translator::{
    lemma_port_for_interface, port_for_interface, port_named, translate, translate_all,
    DEFAULT_PORT,
};
use crate::types::{
    ArpEntry, DeviceId, Ipv4Address, MacAddress, P4RuntimeError, PortId, PortInfo, RouteEntry,
    TableAction, TableEntry, TableKey,
};
use std::collections::HashMap;
use vstd::prelude::*;
use vstd::std_specs::hash::{group_hash_axioms, spec_hash_map_iter};
use vstd::std_specs::iter::IteratorSpec;
use vstd::string::StringExecFns;

verus! {

/// Finds the position of the route for `prefix/prefix_len`.
fn find_route_index(routes: &Vec<RouteEntry>, prefix: Ipv4Address, prefix_len: u8) -> (r: Option<
    usize,
>)
    ensures
        match r {
            Some(i) => i < routes@.len() && route_has_key(routes@[i as int], prefix, prefix_len),
            None => !has_route(routes@, prefix, prefix_len),
        },
{
    let mut i: usize = 0;
    while i < routes.len()
        invariant
            i <= routes@.len(),
            forall|j: int| 0 <= j < i ==> !route_has_key(#[trigger] routes@[j], prefix, prefix_len),
        decreases routes@.len() - i,
    {
        if routes[i].prefix == prefix && routes[i].prefix_len == prefix_len {
            return Some(i);
        }
        i += 1;
    }
    None
}

/// The routing table, the ARP cache and the port registry.
#[derive(Debug)]
pub struct RoutingManager {
    routes: Vec<RouteEntry>,
    arp_table: HashMap<u32, ArpEntry>,
    ports: HashMap<PortId, PortInfo>,
}

impl RoutingManager {
    /// The routing table, in table order.
    pub closed spec fn routes(&self) -> Seq<RouteEntry> {
        self.routes@
    }

    /// The ARP cache, keyed by the 32-bit value of the IP address.
    pub closed spec fn arp(&self) -> Map<u32, ArpEntry> {
        self.arp_table@
    }

    /// The port registry, keyed by port id.
    pub closed spec fn ports(&self) -> Map<PortId, PortInfo> {
        self.ports@
    }

    /// The invariant of the model: the routing table is well formed, and every
    /// ARP entry and every port is filed under its own key.
    pub closed spec fn wf(&self) -> bool {
        &&& routes_wf(self.routes@)
        &&& forall|k: u32| #[trigger]
            self.arp_table@.contains_key(k) ==> self.arp_table@[k].ip.0 == k
        &&& forall|k: PortId| #[trigger]
            self.ports@.contains_key(k) ==> self.ports@[k].port_id == k
    }

    /// What the invariant says of the three stores.
    pub proof fn lemma_wf(&self)
        requires
            self.wf(),
        ensures
            routes_wf(self.routes()),
            forall|k: u32| #[trigger] self.arp().contains_key(k) ==> self.arp()[k].ip.0 == k,
            forall|k: PortId| #[trigger]
                self.ports().contains_key(k) ==> self.ports()[k].port_id == k,
    {
    }

    /// An empty model.
    pub fn new() -> (r: Self)
        ensures
            r.wf(),
            r.routes() == Seq::<RouteEntry>::empty(),
            r.arp() == Map::<u32, ArpEntry>::empty(),
            r.ports() == Map::<PortId, PortInfo>::empty(),
    {
        RoutingManager { routes: Vec::new(), arp_table: HashMap::new(), ports: HashMap::new() }
    }

    /// Inserts a route, in place of the route for the same
    /// `(prefix, prefix_len)` if there is one. A prefix length above 32 is
    /// rejected and leaves the table as it was.
    pub fn add_route(&mut self, route: RouteEntry) -> (result: Result<(), P4RuntimeError>)
        requires
            old(self).wf(),
        ensures
            final(self).wf(),
            final(self).arp() == old(self).arp(),
            final(self).ports() == old(self).ports(),
            route.prefix_len > 32 ==> final(self).routes() == old(self).routes() && (
            result matches Err(P4RuntimeError::InvalidTableEntry(m)) && m@
                == PREFIX_LENGTH_OUT_OF_RANGE@),
            route.prefix_len <= 32 ==> result is Ok && final(self).routes() == with_route(
                old(self).routes(),
                route,
            ),
    {
        if route.prefix_len > 32 {
            return Err(
                P4RuntimeError::InvalidTableEntry(String::from_str(PREFIX_LENGTH_OUT_OF_RANGE)),
            );
        }
        let ghost before = self.routes@;
        proof {
            lemma_without_route(before, route.prefix, route.prefix_len);
            lemma_with_route(before, route);
        }
        match find_route_index(&self.routes, route.prefix, route.prefix_len) {
            Some(i) => {
                proof {
                    lemma_route_index_unique(before, route.prefix, route.prefix_len, i as int);
                }
                self.routes.remove(i);
            },
            None => {},
        }
        assert(self.routes@ == without_route(before, route.prefix, route.prefix_len));
        let ghost base = self.routes@;
        let mut p: usize = 0;
        while p < self.routes.len() && self.routes[p].metric <= route.metric
            invariant
                self.routes@ == base,
                routes_wf(base),
                p <= base.len(),
                forall|i: int| 0 <= i < p ==> (#[trigger] base[i]).metric <= route.metric,
            decreases base.len() - p,
        {
            p += 1;
        }
        proof {
            assert forall|i: int| p <= i < base.len() implies (#[trigger] base[i]).metric
                > route.metric by {
                assert(base[p as int].metric <= base[i].metric);
            }
            lemma_metric_rank_unique(base, route.metric, p as int);
        }
        self.routes.insert(p, route);
        Ok(())
    }

    /// Takes out the route for `prefix/prefix_len`; a table without such a
    /// route stays as it is.
    pub fn remove_route(&mut self, prefix: Ipv4Address, prefix_len: u8) -> (result: Result<
        (),
        P4RuntimeError,
    >)
        requires
            old(self).wf(),
        ensures
            final(self).wf(),
            result is Ok,
            final(self).routes() == without_route(old(self).routes(), prefix, prefix_len),
            final(self).arp() == old(self).arp(),
            final(self).ports() == old(self).ports(),
    {
        proof {
            lemma_without_route(self.routes@, prefix, prefix_len);
        }
        match find_route_index(&self.routes, prefix, prefix_len) {
            Some(i) => {
                proof {
                    lemma_route_index_unique(self.routes@, prefix, prefix_len, i as int);
                }
                self.routes.remove(i);
            },
            None => {},
        }
        Ok(())
    }

    /// Longest-prefix-match lookup: the route that covers `dst_ip` with the
    /// longest prefix; among several of that length the one of lowest metric,
    /// and among those the one that stands last in the table.
    pub fn find_route(&self, dst_ip: Ipv4Address) -> (result: Option<RouteEntry>)
        ensures
            match result {
                None => !has_match(route_candidates(self.routes()), dst_ip.0),
                Some(r) => exists|i: int|
                    #[trigger] is_best_match(route_candidates(self.routes()), dst_ip.0, i) && r
                        == self.routes()[i],
            },
    {
        let ghost cands = route_candidates(self.routes@);
        let mut best: Option<usize> = None;
        let mut i: usize = 0;
        while i < self.routes.len()
            invariant
                i <= self.routes@.len(),
                cands == route_candidates(self.routes@),
                match best {
                    None => forall|j: int| 0 <= j < i ==> !covers(#[trigger] cands[j], dst_ip.0),
                    Some(b) => b < i && is_best_match(cands.take(i as int), dst_ip.0, b as int),
                },
            decreases self.routes@.len() - i,
        {
            let route = &self.routes[i];
            if address_in_prefix(route.prefix.as_u32(), route.prefix_len, dst_ip.as_u32()) {
                let replace = match best {
                    None => true,
                    Some(b) => later_outranks(
                        route.prefix_len,
                        route.metric,
                        self.routes[b].prefix_len,
                        self.routes[b].metric,
                    ),
                };
                if replace {
                    best = Some(i);
                }
            }
            i += 1;
        }
        assert(cands.len() == self.routes@.len());
        match best {
            None => None,
            Some(b) => {
                assert(cands.take(i as int) == cands);
                let r = self.routes[b].clone();
                assert(is_best_match(route_candidates(self.routes()), dst_ip.0, b as int));
                assert(r == self.routes()[b as int]);
                Some(r)
            },
        }
    }

    /// Every route that covers `dst_ip`, in table order.
    pub fn find_matching_routes(&self, dst_ip: Ipv4Address) -> (out: Vec<RouteEntry>)
        ensures
            out@ == self.routes().filter(
                |r: RouteEntry| prefix_matches(r.prefix.0, r.prefix_len, dst_ip.0),
            ),
    {
        let ghost covering = |r: RouteEntry| prefix_matches(r.prefix.0, r.prefix_len, dst_ip.0);
        let mut out: Vec<RouteEntry> = Vec::new();
        let mut i: usize = 0;
        while i < self.routes.len()
            invariant
                i <= self.routes@.len(),
                covering == |r: RouteEntry| prefix_matches(r.prefix.0, r.prefix_len, dst_ip.0),
                out@ == self.routes@.take(i as int).filter(covering),
            decreases self.routes@.len() - i,
        {
            proof {
                assert(self.routes@.take(i + 1) =~= self.routes@.take(i as int).push(
                    self.routes@[i as int],
                ));
                self.routes@.take(i as int).lemma_filter_push(self.routes@[i as int], covering);
            }
            let route = &self.routes[i];
            if address_in_prefix(route.prefix.as_u32(), route.prefix_len, dst_ip.as_u32()) {
                out.push(route.clone());
            }
            i += 1;
        }
        assert(self.routes@.take(i as int) == self.routes@);
        out
    }

    /// Every route, in table order.
    pub fn get_all_routes(&self) -> (out: Vec<RouteEntry>)
        ensures
            out@ == self.routes(),
    {
        let mut out: Vec<RouteEntry> = Vec::new();
        let mut i: usize = 0;
        while i < self.routes.len()
            invariant
                i <= self.routes@.len(),
                out@ == self.routes@.take(i as int),
            decreases self.routes@.len() - i,
        {
            out.push(self.routes[i].clone());
            i += 1;
        }
        assert(self.routes@.take(i as int) == self.routes@);
        out
    }

    /// Empties the routing table.
    pub fn clear_routes(&mut self)
        requires
            old(self).wf(),
        ensures
            final(self).wf(),
            final(self).routes() == Seq::<RouteEntry>::empty(),
            final(self).arp() == old(self).arp(),
            final(self).ports() == old(self).ports(),
    {
        self.routes.clear();
    }

    /// Files an ARP entry under its IP address, in place of an earlier entry
    /// for that address.
    pub fn add_arp_entry(&mut self, arp_entry: ArpEntry)
        requires
            old(self).wf(),
        ensures
            final(self).wf(),
            final(self).arp() == old(self).arp().insert(arp_entry.ip.0, arp_entry),
            final(self).routes() == old(self).routes(),
            final(self).ports() == old(self).ports(),
    {
        broadcast use group_hash_axioms;

        let key = arp_entry.ip.as_u32();
        self.arp_table.insert(key, arp_entry);
    }

    /// Takes out the ARP entry for `ip`, if there is one.
    pub fn remove_arp_entry(&mut self, ip: Ipv4Address)
        requires
            old(self).wf(),
        ensures
            final(self).wf(),
            final(self).arp() == old(self).arp().remove(ip.0),
            final(self).routes() == old(self).routes(),
            final(self).ports() == old(self).ports(),
    {
        broadcast use group_hash_axioms;

        let key = ip.as_u32();
        self.arp_table.remove(&key);
    }

    /// The ARP entry for `ip`.
    pub fn find_arp_entry(&self, ip: Ipv4Address) -> (result: Option<ArpEntry>)
        ensures
            result == (if self.arp().contains_key(ip.0) {
                Some(self.arp()[ip.0])
            } else {
                None
            }),
    {
        broadcast use group_hash_axioms;

        let key = ip.as_u32();
        match self.arp_table.get(&key) {
            Some(entry) => Some(entry.clone()),
            None => None,
        }
    }

    /// Every ARP entry, each once, in no particular order.
    pub fn get_all_arp_entries(&self) -> (out: Vec<ArpEntry>)
        requires
            self.wf(),
        ensures
            out@.len() == self.arp().dom().len(),
            forall|i: int|
                0 <= i < out@.len() ==> self.arp().contains_key((#[trigger] out@[i]).ip.0)
                    && self.arp()[out@[i].ip.0] == out@[i],
            forall|k: u32| #[trigger] self.arp().contains_key(k) ==> out@.contains(self.arp()[k]),
    {
        broadcast use group_hash_axioms;

        let ghost items = spec_hash_map_iter(&self.arp_table).remaining();
        let mut out: Vec<ArpEntry> = Vec::new();
        for (k, v) in it: self.arp_table.iter()
            invariant
                it.seq() == items,
                out@.len() == it.index(),
                forall|j: int| 0 <= j < out@.len() ==> (#[trigger] out@[j]) == *items[j].1,
        {
            out.push(v.clone());
        }
        proof {
            let m = self.arp_table@;
            assert forall|i: int| 0 <= i < out@.len() implies m.contains_key(
                (#[trigger] out@[i]).ip.0,
            ) && m[out@[i].ip.0] == out@[i] by {
                assert(m.contains_key(*items[i].0));
            }
            assert forall|k: u32| #[trigger] m.contains_key(k) implies out@.contains(m[k]) by {
                assert(items.contains((&k, &m[k])));
                let j = choose|j: int| 0 <= j < items.len() && items[j] == (&k, &m[k]);
                assert(out@[j] == m[k]);
            }
        }
        out
    }

    /// Empties the ARP cache.
    pub fn clear_arp_table(&mut self)
        requires
            old(self).wf(),
        ensures
            final(self).wf(),
            final(self).arp() == Map::<u32, ArpEntry>::empty(),
            final(self).routes() == old(self).routes(),
            final(self).ports() == old(self).ports(),
    {
        self.arp_table.clear();
    }

    /// Files a port under its port id, in place of an earlier port of that
    /// id.
    pub fn add_port(&mut self, port: PortInfo)
        requires
            old(self).wf(),
        ensures
            final(self).wf(),
            final(self).ports() == old(self).ports().insert(port.port_id, port),
            final(self).routes() == old(self).routes(),
            final(self).arp() == old(self).arp(),
    {
        broadcast use group_hash_axioms;

        let key = port.port_id;
        self.ports.insert(key, port);
    }

    /// Takes out the port `port_id`, if there is one.
    pub fn remove_port(&mut self, port_id: PortId)
        requires
            old(self).wf(),
        ensures
            final(self).wf(),
            final(self).ports() == old(self).ports().remove(port_id),
            final(self).routes() == old(self).routes(),
            final(self).arp() == old(self).arp(),
    {
        broadcast use group_hash_axioms;

        self.ports.remove(&port_id);
    }

    /// The port `port_id`.
    pub fn get_port(&self, port_id: PortId) -> (result: Option<PortInfo>)
        ensures
            result == (if self.ports().contains_key(port_id) {
                Some(self.ports()[port_id])
            } else {
                None
            }),
    {
        broadcast use group_hash_axioms;

        match self.ports.get(&port_id) {
            Some(port) => Some(port.clone()),
            None => None,
        }
    }

    /// Every port, each once, in no particular order.
    pub fn get_all_ports(&self) -> (out: Vec<PortInfo>)
        requires
            self.wf(),
        ensures
            out@.len() == self.ports().dom().len(),
            forall|i: int|
                0 <= i < out@.len() ==> self.ports().contains_key((#[trigger] out@[i]).port_id)
                    && self.ports()[out@[i].port_id] == out@[i],
            forall|k: PortId| #[trigger]
                self.ports().contains_key(k) ==> out@.contains(self.ports()[k]),
    {
        broadcast use group_hash_axioms;

        let ghost items = spec_hash_map_iter(&self.ports).remaining();
        let mut out: Vec<PortInfo> = Vec::new();
        for (k, v) in it: self.ports.iter()
            invariant
                it.seq() == items,
                out@.len() == it.index(),
                forall|j: int| 0 <= j < out@.len() ==> (#[trigger] out@[j]) == *items[j].1,
        {
            out.push(v.clone());
        }
        proof {
            let m = self.ports@;
            assert forall|i: int| 0 <= i < out@.len() implies m.contains_key(
                (#[trigger] out@[i]).port_id,
            ) && m[out@[i].port_id] == out@[i] by {
                assert(m.contains_key(*items[i].0));
            }
            assert forall|k: PortId| #[trigger] m.contains_key(k) implies out@.contains(m[k]) by {
                assert(items.contains((&k, &m[k])));
                let j = choose|j: int| 0 <= j < items.len() && items[j] == (&k, &m[k]);
                assert(out@[j] == m[k]);
            }
        }
        out
    }

    /// Sets the link state of the port `port_id`; a registry without that
    /// port stays as it is.
    pub fn update_port_status(&mut self, port_id: PortId, is_up: bool) -> (result: Result<
        (),
        P4RuntimeError,
    >)
        requires
            old(self).wf(),
        ensures
            final(self).wf(),
            result is Ok,
            final(self).ports() == (if old(self).ports().contains_key(port_id) {
                old(self).ports().insert(
                    port_id,
                    PortInfo { is_up, ..old(self).ports()[port_id] },
                )
            } else {
                old(self).ports()
            }),
            final(self).routes() == old(self).routes(),
            final(self).arp() == old(self).arp(),
    {
        broadcast use group_hash_axioms;

        let updated = match self.ports.get(&port_id) {
            Some(port) => Some(
                PortInfo {
                    port_id: port.port_id,
                    name: port.name.clone(),
                    mac_address: port.mac_address,
                    ip_address: port.ip_address,
                    is_up,
                },
            ),
            None => None,
        };
        match updated {
            Some(port) => {
                self.ports.insert(port_id, port);
            },
            None => {},
        }
        Ok(())
    }

    /// Empties the port registry.
    pub fn clear_ports(&mut self)
        requires
            old(self).wf(),
        ensures
            final(self).wf(),
            final(self).ports() == Map::<PortId, PortInfo>::empty(),
            final(self).routes() == old(self).routes(),
            final(self).arp() == old(self).arp(),
    {
        self.ports.clear();
    }

    /// The port that stands for the interface `interface`: the lowest port
    /// id registered under that name.
    pub fn get_port_id_by_interface(&self, interface: &str) -> (result: Option<PortId>)
        ensures
            result == port_for_interface(self.ports(), interface@),
    {
        broadcast use group_hash_axioms;

        let ghost items = spec_hash_map_iter(&self.ports).remaining();
        let ghost m = self.ports@;
        let mut best: Option<PortId> = None;
        for (k, v) in it: self.ports.iter()
            invariant
                it.seq() == items,
                m == self.ports@,
                match best {
                    None => forall|j: int|
                        0 <= j < it.index() ==> (#[trigger] items[j]).1.name@ != interface@,
                    Some(b) => port_named(m, interface@, b) && forall|j: int|
                        0 <= j < it.index() && (#[trigger] items[j]).1.name@ == interface@ ==> b
                            <= *items[j].0,
                },
        {
            proof {
                assert(m.contains_key(*items[it.index()].0));
            }
            if str_eq(v.name.as_str(), interface) {
                let replace = match best {
                    None => true,
                    Some(b) => *k < b,
                };
                if replace {
                    best = Some(*k);
                }
            }
        }
        proof {
            assert forall|q: PortId| #[trigger] port_named(m, interface@, q) implies (match best {
                None => false,
                Some(b) => b <= q,
            }) by {
                assert(items.contains((&q, &m[q])));
                let j = choose|j: int| 0 <= j < items.len() && items[j] == (&q, &m[q]);
                assert(items[j].1.name@ == interface@);
            }
            match best {
                None => {},
                Some(b) => {
                    lemma_port_for_interface(m, interface@, b);
                },
            }
        }
        best
    }

    /// The forwarding-table entry that stands for a route, on any device:
    /// `None` while the route's next hop has no ARP entry.
    pub fn convert_route_to_table_entry(&self, route: &RouteEntry, _device_id: DeviceId) -> (result:
        Result<Option<TableEntry>, P4RuntimeError>)
        ensures
            result is Ok,
            result->Ok_0 == translate(*route, self.arp(), self.ports()),
    {
        broadcast use group_hash_axioms;

        let next_hop_mac = match route.next_hop {
            Some(next_hop) => {
                let key = next_hop.as_u32();
                match self.arp_table.get(&key) {
                    Some(arp_entry) => arp_entry.mac,
                    None => {
                        return Ok(None);
                    },
                }
            },
            None => {
                let mac = MacAddress::new([0x08, 0x00, 0x00, 0x00, 0x00, 0x01]);
                assert([0x08u8, 0x00u8, 0x00u8, 0x00u8, 0x00u8, 0x01u8]@ =~= seq![
                    0x08u8,
                    0x00u8,
                    0x00u8,
                    0x00u8,
                    0x00u8,
                    0x01u8,
                ]);
                mac
            },
        };
        let port_id = match self.get_port_id_by_interface(route.interface.as_str()) {
            Some(p) => p,
            None => DEFAULT_PORT,
        };
        Ok(
            Some(
                TableEntry {
                    key: TableKey { ipv4_dst: route.prefix, prefix_len: route.prefix_len },
                    action: TableAction::Ipv4Forward { dst_mac: next_hop_mac, port: port_id },
                    priority: route.metric,
                },
            ),
        )
    }

    /// The forwarding-table entries that stand for the routing table, in
    /// table order; routes that cannot be resolved are left out.
    pub fn convert_all_routes_to_table_entries(&self, device_id: DeviceId) -> (result: Result<
        Vec<TableEntry>,
        P4RuntimeError,
    >)
        ensures
            result is Ok,
            result->Ok_0@ == translate_all(self.routes(), self.arp(), self.ports()),
    {
        let ghost f = |r: RouteEntry| translate(r, self.arp(), self.ports());
        let mut table_entries: Vec<TableEntry> = Vec::new();
        let mut i: usize = 0;
        while i < self.routes.len()
            invariant
                i <= self.routes@.len(),
                f == |r: RouteEntry| translate(r, self.arp(), self.ports()),
                table_entries@ == self.routes@.take(i as int).filter_map(f),
            decreases self.routes@.len() - i,
        {
            proof {
                self.routes@.lemma_filter_map_take_succ(f, i as int);
            }
            match self.convert_route_to_table_entry(&self.routes[i], device_id) {
                Ok(Some(entry)) => {
                    table_entries.push(entry);
                },
                Ok(None) => {},
                Err(e) => {
                    return Err(e);
                },
            }
            i += 1;
        }
        assert(self.routes@.take(i as int) == self.routes@);
        Ok(table_entries)
    }
}

impl Default for RoutingManager {
    fn default() -> (r: Self)
        ensures
            r.wf(),
            r.routes() == Seq::<RouteEntry>::empty(),
            r.arp() == Map::<u32, ArpEntry>::empty(),
            r.ports() == Map::<PortId, PortInfo>::empty(),
    {
        RoutingManager::new()
    }
}

/// The message of the error for a route built without a prefix.
pub const MISSING_PREFIX: &'static str = "Missing prefix";

/// The message of the error for a route built without a prefix length.
pub const MISSING_PREFIX_LENGTH: &'static str = "Missing prefix length";

/// The message of the error for a route built without an interface.
pub const MISSING_INTERFACE: &'static str = "Missing interface";

/// Step-by-step construction of a [`RouteEntry`].
#[derive(Debug)]
pub struct RouteBuilder {
    prefix: Option<Ipv4Address>,
    prefix_len: Option<u8>,
    next_hop: Option<Ipv4Address>,
    interface: Option<String>,
    metric: u32,
}

/// What a [`RouteBuilder`] has been given so far.
pub struct RouteBuilderView {
    pub prefix: Option<Ipv4Address>,
    pub prefix_len: Option<u8>,
    pub next_hop: Option<Ipv4Address>,
    pub interface: Option<Seq<char>>,
    pub metric: u32,
}

impl View for RouteBuilder {
    type V = RouteBuilderView;

    closed spec fn view(&self) -> RouteBuilderView {
        RouteBuilderView {
            prefix: self.prefix,
            prefix_len: self.prefix_len,
            next_hop: self.next_hop,
            interface: match self.interface {
                Some(name) => Some(name@),
                None => None,
            },
            metric: self.metric,
        }
    }
}

impl RouteBuilder {
    /// A builder that has been given nothing; the metric starts at 1.
    pub fn new() -> (r: Self)
        ensures
            r@ == (RouteBuilderView {
                prefix: None,
                prefix_len: None,
                next_hop: None,
                interface: None,
                metric: 1,
            }),
    {
        RouteBuilder { prefix: None, prefix_len: None, next_hop: None, interface: None, metric: 1 }
    }

    /// Sets the prefix.
    pub fn prefix(self, prefix: Ipv4Address) -> (r: Self)
        ensures
            r@ == (RouteBuilderView { prefix: Some(prefix), ..self@ }),
    {
        let mut b = self;
        b.prefix = Some(prefix);
        b
    }

    /// Sets the prefix length.
    pub fn prefix_len(self, prefix_len: u8) -> (r: Self)
        ensures
            r@ == (RouteBuilderView { prefix_len: Some(prefix_len), ..self@ }),
    {
        let mut b = self;
        b.prefix_len = Some(prefix_len);
        b
    }

    /// Sets the next hop.
    pub fn next_hop(self, next_hop: Ipv4Address) -> (r: Self)
        ensures
            r@ == (RouteBuilderView { next_hop: Some(next_hop), ..self@ }),
    {
        let mut b = self;
        b.next_hop = Some(next_hop);
        b
    }

    /// Sets the interface name.
    pub fn interface(self, interface: String) -> (r: Self)
        ensures
            r@ == (RouteBuilderView { interface: Some(interface@), ..self@ }),
    {
        let mut b = self;
        b.interface = Some(interface);
        b
    }

    /// Sets the metric.
    pub fn metric(self, metric: u32) -> (r: Self)
        ensures
            r@ == (RouteBuilderView { metric, ..self@ }),
    {
        let mut b = self;
        b.metric = metric;
        b
    }

    /// The route that was described, or an error that names the first of
    /// prefix, prefix length and interface that was not given.
    pub fn build(self) -> (result: Result<RouteEntry, P4RuntimeError>)
        ensures
            match result {
                Ok(route) => {
                    &&& self@.prefix == Some(route.prefix)
                    &&& self@.prefix_len == Some(route.prefix_len)
                    &&& self@.interface == Some(route.interface@)
                    &&& self@.next_hop == route.next_hop
                    &&& self@.metric == route.metric
                },
                Err(e) => {
                    &&& e matches P4RuntimeError::InvalidTableEntry(m)
                    &&& m@ == (if self@.prefix is None {
                        MISSING_PREFIX@
                    } else if self@.prefix_len is None {
                        MISSING_PREFIX_LENGTH@
                    } else {
                        MISSING_INTERFACE@
                    })
                },
            },
            result is Ok <==> self@.prefix is Some && self@.prefix_len is Some
                && self@.interface is Some,
    {
        let prefix = match self.prefix {
            Some(p) => p,
            None => {
                return Err(P4RuntimeError::InvalidTableEntry(String::from_str(MISSING_PREFIX)));
            },
        };
        let prefix_len = match self.prefix_len {
            Some(l) => l,
            None => {
                return Err(
                    P4RuntimeError::InvalidTableEntry(String::from_str(MISSING_PREFIX_LENGTH)),
                );
            },
        };
        let next_hop = self.next_hop;
        let metric = self.metric;
        let interface = match self.interface {
            Some(i) => i,
            None => {
                return Err(P4RuntimeError::InvalidTableEntry(String::from_str(MISSING_INTERFACE)));
            },
        };
        Ok(RouteEntry { prefix, prefix_len, next_hop, interface, metric })
    }
}

impl Default for RouteBuilder {
    fn default() -> (r: Self)
        ensures
            r@ == (RouteBuilderView {
                prefix: None,
                prefix_len: None,
                next_hop: None,
                interface: None,
                metric: 1,
            }),
    {
        RouteBuilder::new()
    }
}

} // verus!
