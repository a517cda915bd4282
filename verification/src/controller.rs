//! The controller: one routing model, one table store and one device manager,
//! kept in step. Every change of the model is followed by a fresh
//! computation of the desired table and by a decision, for each device, on
//! how it is brought to hold that table.
//!
//! The controller sends nothing. It hands out connection requests and
//! pushes, and is told how they ended.

use crate::device_manager::{
    all_synced, is_plan_for, new_record, record_after_push, record_after_sync, statistics_of,
    sync_decision, DeviceManager, DeviceRecord, INVALID_ARGUMENT, INVALID_ENDPOINT,
};
use crate::entries::entries_wf;
use crate::lpm::PREFIX_LENGTH_OUT_OF_RANGE;
use crate::p4runtime_client::{
    endpoint_accepted, endpoint_is_accepted, step, ClientAction, ClientEvent,
};
use crate::retry::default_policy;
use crate::routing_manager::RoutingManager;
use crate::routing_table::{with_route, without_route};
use crate::sync::{
    push_failure, store_after_push, FailureReport, OperationKind, SyncPlan, SyncReport,
};
use crate::table_manager::{snapshot_of, TableManager};
use crate::translator::{lemma_translate_all_wf, translate_all};
use crate::types::{
    ArpEntry, ControllerState, DeviceId, DeviceInfo, Ipv4Address, MacAddress, P4RuntimeError,
    PortId, PortInfo, RouteEntry, Statistics, TableEntry,
};
use std::collections::HashMap;
use vstd::prelude::*;
use vstd::std_specs::hash::group_hash_axioms;
use vstd::string::StringExecFns;

verus! {

/// The controller of a fleet of forwarding devices.
#[derive(Debug)]
pub struct P4Controller {
    device_manager: DeviceManager,
    table_manager: TableManager,
    routing_manager: RoutingManager,
    state: ControllerState,
}

/// Whether two controllers hold the same routing model.
pub open spec fn same_model(a: P4Controller, b: P4Controller) -> bool {
    &&& a.routing().routes() == b.routing().routes()
    &&& a.routing().arp() == b.routing().arp()
    &&& a.routing().ports() == b.routing().ports()
}

/// Whether two controllers know the same devices in the same state and hold
/// the same tables for them.
pub open spec fn same_fleet(a: P4Controller, b: P4Controller) -> bool {
    &&& a.devices().records() == b.devices().records()
    &&& a.devices().policy() == b.devices().policy()
    &&& a.store()@ == b.store()@
    &&& a.state().connected_devices@ == b.state().connected_devices@
}

/// Whether `after` is `before` once every device has been asked to hold the
/// table that `after`'s model calls for, `plans` being the pushes that
/// follow. The store is left as it was: it follows a device only once a push
/// has been reported.
pub open spec fn resynced(before: P4Controller, after: P4Controller, plans: Seq<SyncPlan>) -> bool {
    &&& after.store()@ == before.store()@
    &&& after.devices().policy() == before.devices().policy()
    &&& after.state().connected_devices@ == before.state().connected_devices@
    &&& all_synced(
        before.devices().records(),
        after.devices().records(),
        before.devices().policy(),
        before.store()@,
        after.desired(),
        plans,
    )
}

/// Whether `route` is the default route of the default configuration:
/// `0.0.0.0/0` via `192.168.1.1` on `eth0`, metric 1.
pub open spec fn is_default_route(route: RouteEntry) -> bool {
    &&& route.prefix == Ipv4Address(0)
    &&& route.prefix_len == 0
    &&& route.next_hop == Some(Ipv4Address(0xC0A8_0101))
    &&& route.interface@ == seq!['e', 't', 'h', '0']
    &&& route.metric == 1
}

/// Whether `route` is the local route of the default configuration:
/// `192.168.1.0/24`, directly connected on `eth0`, metric 0.
pub open spec fn is_local_route(route: RouteEntry) -> bool {
    &&& route.prefix == Ipv4Address(0xC0A8_0100)
    &&& route.prefix_len == 24
    &&& route.next_hop == None::<Ipv4Address>
    &&& route.interface@ == seq!['e', 't', 'h', '0']
    &&& route.metric == 0
}

/// Whether `entry` is the ARP entry of the default configuration:
/// `192.168.1.1` at `00:11:22:33:44:55` on `eth0`.
pub open spec fn is_gateway_arp(entry: ArpEntry) -> bool {
    &&& entry.ip == Ipv4Address(0xC0A8_0101)
    &&& entry.mac == MacAddress::from_octets(seq![0x00u8, 0x11u8, 0x22u8, 0x33u8, 0x44u8, 0x55u8])
    &&& entry.interface@ == seq!['e', 't', 'h', '0']
}

/// Whether `after` is `before` with the device of `info` registered: the
/// device manager holds a new record for it, the table store knows it with
/// no table, and the controller's own record holds its description.
pub open spec fn device_added(before: P4Controller, after: P4Controller, info: DeviceInfo) -> bool {
    &&& after.devices().records() == before.devices().records().insert(
        info.device_id,
        new_record(before.devices().records(), info),
    )
    &&& after.store()@ == before.store()@.insert(
        info.device_id,
        Map::<Seq<char>, Seq<TableEntry>>::empty(),
    )
    &&& after.state().connected_devices@.dom() == before.state().connected_devices@.dom().insert(
        info.device_id,
    )
    &&& after.state().connected_devices@[info.device_id].same_device(info)
}

impl P4Controller {
    /// The routing model.
    pub closed spec fn routing(&self) -> RoutingManager {
        self.routing_manager
    }

    /// The table store.
    pub closed spec fn store(&self) -> TableManager {
        self.table_manager
    }

    /// The device manager.
    pub closed spec fn devices(&self) -> DeviceManager {
        self.device_manager
    }

    /// The controller's own record of its devices.
    pub closed spec fn state(&self) -> ControllerState {
        self.state
    }

    /// The table that every device should hold: the translation of the
    /// routing table under the ARP cache and the port registry.
    pub open spec fn desired(&self) -> Seq<TableEntry> {
        translate_all(self.routing().routes(), self.routing().arp(), self.routing().ports())
    }

    /// The invariant of the controller: its three parts are well formed, and
    /// the device manager, the table store and the controller's own record
    /// know the same devices.
    pub closed spec fn wf(&self) -> bool {
        &&& self.routing_manager.wf()
        &&& self.table_manager.wf()
        &&& self.device_manager.wf()
        &&& self.table_manager@.dom() == self.device_manager.records().dom()
        &&& self.state.connected_devices@.dom() == self.device_manager.records().dom()
    }

    /// What the invariant says of the parts.
    pub proof fn lemma_wf(&self)
        requires
            self.wf(),
        ensures
            self.routing().wf(),
            self.store().wf(),
            self.devices().wf(),
            self.store()@.dom() == self.devices().records().dom(),
            self.state().connected_devices@.dom() == self.devices().records().dom(),
            entries_wf(self.desired()),
    {
        self.routing_manager.lemma_wf();
        lemma_translate_all_wf(
            self.routing().routes(),
            self.routing().arp(),
            self.routing().ports(),
        );
    }

    /// A controller with an empty model, no device and the default retry
    /// policy.
    pub fn new() -> (r: Self)
        ensures
            r.wf(),
            r.routing().routes() == Seq::<RouteEntry>::empty(),
            r.routing().arp() == Map::<u32, ArpEntry>::empty(),
            r.routing().ports() == Map::<PortId, PortInfo>::empty(),
            r.store()@ == Map::<DeviceId, Map<Seq<char>, Seq<TableEntry>>>::empty(),
            r.devices().records() == Map::<DeviceId, DeviceRecord>::empty(),
            r.devices().policy() == default_policy(),
            r.state().connected_devices@ == Map::<DeviceId, DeviceInfo>::empty(),
    {
        P4Controller {
            device_manager: DeviceManager::new(),
            table_manager: TableManager::new(),
            routing_manager: RoutingManager::new(),
            state: ControllerState::default(),
        }
    }

    /// Puts the default configuration into the model: the default route via
    /// the gateway, the route to the directly connected local network and
    /// the ARP entry of the gateway, all on `eth0`. Every device is then
    /// asked to hold the table that follows.
    pub fn initialize(&mut self) -> (result: Result<Vec<SyncPlan>, P4RuntimeError>)
        requires
            old(self).wf(),
        ensures
            final(self).wf(),
            final(self).routing().ports() == old(self).routing().ports(),
            result matches Ok(plans) && resynced(*old(self), *final(self), plans@),
            exists|gateway: RouteEntry, local: RouteEntry, neighbour: ArpEntry|
                #![trigger
                    is_default_route(gateway),
                    is_local_route(local),
                    is_gateway_arp(neighbour),
                ]
                {
                    &&& is_default_route(gateway)
                    &&& is_local_route(local)
                    &&& is_gateway_arp(neighbour)
                    &&& final(self).routing().routes() == with_route(
                        with_route(old(self).routing().routes(), gateway),
                        local,
                    )
                    &&& final(self).routing().arp() == old(self).routing().arp().insert(
                        neighbour.ip.0,
                        neighbour,
                    )
                },
    {
        proof {
            reveal_strlit("eth0");
            assert("eth0"@ =~= seq!['e', 't', 'h', '0']);
        }
        let gateway = RouteEntry {
            prefix: Ipv4Address::from_u32(0),
            prefix_len: 0,
            next_hop: Some(Ipv4Address::from_u32(0xC0A8_0101)),
            interface: String::from_str("eth0"),
            metric: 1,
        };
        let local = RouteEntry {
            prefix: Ipv4Address::from_u32(0xC0A8_0100),
            prefix_len: 24,
            next_hop: None,
            interface: String::from_str("eth0"),
            metric: 0,
        };
        let neighbour = ArpEntry {
            ip: Ipv4Address::from_u32(0xC0A8_0101),
            mac: MacAddress::new([0x00, 0x11, 0x22, 0x33, 0x44, 0x55]),
            interface: String::from_str("eth0"),
        };
        proof {
            assert([0x00u8, 0x11u8, 0x22u8, 0x33u8, 0x44u8, 0x55u8]@ =~= seq![
                0x00u8,
                0x11u8,
                0x22u8,
                0x33u8,
                0x44u8,
                0x55u8,
            ]);
            assert(is_default_route(gateway));
            assert(is_local_route(local));
            assert(is_gateway_arp(neighbour));
        }
        match self.routing_manager.add_route(gateway) {
            Ok(_) => {},
            Err(e) => {
                return Err(e);
            },
        }
        match self.routing_manager.add_route(local) {
            Ok(_) => {},
            Err(e) => {
                return Err(e);
            },
        }
        self.routing_manager.add_arp_entry(neighbour);
        let ghost mid = *self;
        let plans = self.resync();
        proof {
            assert(same_fleet(*old(self), mid));
        }
        Ok(plans)
    }

    /// Asks every device to hold the desired table.
    fn resync(&mut self) -> (plans: Vec<SyncPlan>)
        requires
            old(self).wf(),
        ensures
            final(self).wf(),
            same_model(*old(self), *final(self)),
            resynced(*old(self), *final(self), plans@),
    {
        proof {
            self.lemma_wf();
        }
        let desired = match self.routing_manager.convert_all_routes_to_table_entries(0) {
            Ok(entries) => entries,
            Err(_) => Vec::new(),
        };
        match self.device_manager.sync_all(&self.table_manager, &desired) {
            Ok(plans) => plans,
            Err(_) => Vec::new(),
        }
    }

    /// Asks every device to hold the desired table, and hands out the pushes
    /// that follow.
    pub fn apply_routing_table_to_all_devices(&mut self) -> (result: Result<
        Vec<SyncPlan>,
        P4RuntimeError,
    >)
        requires
            old(self).wf(),
        ensures
            final(self).wf(),
            same_model(*old(self), *final(self)),
            result matches Ok(plans) && resynced(*old(self), *final(self), plans@),
    {
        Ok(self.resync())
    }

    /// Asks one device to hold the desired table, and hands out the push
    /// that follows, if one does.
    pub fn apply_routing_table_to_device(&mut self, device_id: DeviceId) -> (result: Result<
        Option<SyncPlan>,
        P4RuntimeError,
    >)
        requires
            old(self).wf(),
        ensures
            final(self).wf(),
            same_model(*old(self), *final(self)),
            final(self).store()@ == old(self).store()@,
            final(self).devices().policy() == old(self).devices().policy(),
            final(self).state().connected_devices@ == old(self).state().connected_devices@,
            match result {
                Err(e) => !old(self).devices().has_device(device_id) && e == (
                P4RuntimeError::DeviceNotFound { device_id }) && final(self).devices().records()
                    == old(self).devices().records(),
                Ok(plan) => {
                    let record = old(self).devices().records()[device_id];
                    let snapshot = old(self).store().snapshot(device_id);
                    &&& old(self).devices().has_device(device_id)
                    &&& final(self).devices().records() == old(self).devices().records().insert(
                        device_id,
                        record_after_sync(
                            record,
                            old(self).devices().policy(),
                            snapshot,
                            old(self).desired(),
                        ),
                    )
                    &&& match plan {
                        Some(p) => sync_decision(record, snapshot, old(self).desired()) is Push
                            && is_plan_for(p, record, snapshot, old(self).desired()),
                        None => !(sync_decision(record, snapshot, old(self).desired()) is Push),
                    }
                },
            },
    {
        proof {
            self.lemma_wf();
        }
        let desired = match self.routing_manager.convert_all_routes_to_table_entries(device_id) {
            Ok(entries) => entries,
            Err(_) => Vec::new(),
        };
        let result = self.device_manager.sync_device(&self.table_manager, device_id, desired);
        proof {
            if result is Ok {
                assert(self.device_manager.records().dom() =~= old(
                    self,
                ).device_manager.records().dom());
            }
        }
        result
    }

    /// Inserts a route and asks every device to hold the table that follows.
    /// A prefix length above 32 is rejected and changes nothing.
    pub fn add_route(&mut self, route: RouteEntry) -> (result: Result<
        Vec<SyncPlan>,
        P4RuntimeError,
    >)
        requires
            old(self).wf(),
        ensures
            final(self).wf(),
            final(self).routing().arp() == old(self).routing().arp(),
            final(self).routing().ports() == old(self).routing().ports(),
            route.prefix_len > 32 ==> final(self).routing().routes() == old(
                self,
            ).routing().routes() && same_fleet(*old(self), *final(self)) && (
            result matches Err(P4RuntimeError::InvalidTableEntry(m)) && m@
                == PREFIX_LENGTH_OUT_OF_RANGE@),
            route.prefix_len <= 32 ==> final(self).routing().routes() == with_route(
                old(self).routing().routes(),
                route,
            ) && (result matches Ok(plans) && resynced(*old(self), *final(self), plans@)),
    {
        match self.routing_manager.add_route(route) {
            Ok(_) => Ok(self.resync()),
            Err(e) => Err(e),
        }
    }

    /// Takes a route out and asks every device to hold the table that
    /// follows.
    pub fn remove_route(&mut self, prefix: Ipv4Address, prefix_len: u8) -> (result: Result<
        Vec<SyncPlan>,
        P4RuntimeError,
    >)
        requires
            old(self).wf(),
        ensures
            final(self).wf(),
            final(self).routing().arp() == old(self).routing().arp(),
            final(self).routing().ports() == old(self).routing().ports(),
            final(self).routing().routes() == without_route(
                old(self).routing().routes(),
                prefix,
                prefix_len,
            ),
            result matches Ok(plans) && resynced(*old(self), *final(self), plans@),
    {
        match self.routing_manager.remove_route(prefix, prefix_len) {
            Ok(_) => Ok(self.resync()),
            Err(e) => Err(e),
        }
    }

    /// Files an ARP entry and asks every device to hold the table that
    /// follows: any route may have become resolvable.
    pub fn add_arp_entry(&mut self, arp_entry: ArpEntry) -> (result: Result<
        Vec<SyncPlan>,
        P4RuntimeError,
    >)
        requires
            old(self).wf(),
        ensures
            final(self).wf(),
            final(self).routing().routes() == old(self).routing().routes(),
            final(self).routing().ports() == old(self).routing().ports(),
            final(self).routing().arp() == old(self).routing().arp().insert(
                arp_entry.ip.0,
                arp_entry,
            ),
            result matches Ok(plans) && resynced(*old(self), *final(self), plans@),
    {
        self.routing_manager.add_arp_entry(arp_entry);
        Ok(self.resync())
    }

    /// Takes an ARP entry out and asks every device to hold the table that
    /// follows.
    pub fn remove_arp_entry(&mut self, ip: Ipv4Address) -> (result: Result<
        Vec<SyncPlan>,
        P4RuntimeError,
    >)
        requires
            old(self).wf(),
        ensures
            final(self).wf(),
            final(self).routing().routes() == old(self).routing().routes(),
            final(self).routing().ports() == old(self).routing().ports(),
            final(self).routing().arp() == old(self).routing().arp().remove(ip.0),
            result matches Ok(plans) && resynced(*old(self), *final(self), plans@),
    {
        self.routing_manager.remove_arp_entry(ip);
        Ok(self.resync())
    }

    /// Files a port and asks every device to hold the table that follows.
    pub fn add_port(&mut self, port: PortInfo) -> (result: Result<Vec<SyncPlan>, P4RuntimeError>)
        requires
            old(self).wf(),
        ensures
            final(self).wf(),
            final(self).routing().routes() == old(self).routing().routes(),
            final(self).routing().arp() == old(self).routing().arp(),
            final(self).routing().ports() == old(self).routing().ports().insert(port.port_id, port),
            result matches Ok(plans) && resynced(*old(self), *final(self), plans@),
    {
        self.routing_manager.add_port(port);
        Ok(self.resync())
    }

    /// Takes a port out and asks every device to hold the table that
    /// follows.
    pub fn remove_port(&mut self, port_id: PortId) -> (result: Result<
        Vec<SyncPlan>,
        P4RuntimeError,
    >)
        requires
            old(self).wf(),
        ensures
            final(self).wf(),
            final(self).routing().routes() == old(self).routing().routes(),
            final(self).routing().arp() == old(self).routing().arp(),
            final(self).routing().ports() == old(self).routing().ports().remove(port_id),
            result matches Ok(plans) && resynced(*old(self), *final(self), plans@),
    {
        self.routing_manager.remove_port(port_id);
        Ok(self.resync())
    }

    /// Sets the link state of a port and asks every device to hold the
    /// table that follows.
    pub fn update_port_status(&mut self, port_id: PortId, is_up: bool) -> (result: Result<
        Vec<SyncPlan>,
        P4RuntimeError,
    >)
        requires
            old(self).wf(),
        ensures
            final(self).wf(),
            final(self).routing().routes() == old(self).routing().routes(),
            final(self).routing().arp() == old(self).routing().arp(),
            final(self).routing().ports() == (if old(self).routing().ports().contains_key(
                port_id,
            ) {
                old(self).routing().ports().insert(
                    port_id,
                    PortInfo { is_up, ..old(self).routing().ports()[port_id] },
                )
            } else {
                old(self).routing().ports()
            }),
            result matches Ok(plans) && resynced(*old(self), *final(self), plans@),
    {
        match self.routing_manager.update_port_status(port_id, is_up) {
            Ok(_) => Ok(self.resync()),
            Err(e) => Err(e),
        }
    }

    /// Registers a device with the device manager and with the table store,
    /// where it starts with no table, and asks for its connection, provided
    /// that `endpoint_accepted` says that the device's endpoint is one that a
    /// channel can be opened to; otherwise the device is refused and nothing
    /// changes. A device that was registered under the same id starts over.
    pub fn register_device(&mut self, device_info: DeviceInfo, endpoint_accepted: bool) -> (result:
        Result<ClientAction, P4RuntimeError>)
        requires
            old(self).wf(),
        ensures
            final(self).wf(),
            same_model(*old(self), *final(self)),
            final(self).devices().policy() == old(self).devices().policy(),
            endpoint_accepted ==> result == Ok::<ClientAction, P4RuntimeError>(
                ClientAction::Connect,
            ) && device_added(*old(self), *final(self), device_info),
            !endpoint_accepted ==> same_fleet(*old(self), *final(self)) && (
            result matches Err(P4RuntimeError::GrpcError { code, message }) && code
                == INVALID_ARGUMENT && message@ == INVALID_ENDPOINT@),
    {
        broadcast use group_hash_axioms;

        let device_id = device_info.device_id;
        let copy = device_info.clone();
        match self.device_manager.register_device(device_info, endpoint_accepted) {
            Ok(action) => {
                self.table_manager.initialize_device_tables(device_id);
                self.state.connected_devices.insert(device_id, copy);
                proof {
                    assert(self.table_manager@.dom() =~= self.device_manager.records().dom());
                    assert(self.state.connected_devices@.dom()
                        =~= self.device_manager.records().dom());
                    assert(self.state.connected_devices@.dom() =~= old(
                        self,
                    ).state.connected_devices@.dom().insert(device_id));
                }
                Ok(action)
            },
            Err(e) => Err(e),
        }
    }

    /// Registers a device with the device manager and with the table store,
    /// where it starts with no table, and asks for its connection, provided
    /// that its endpoint is a URI that a channel can be opened to; otherwise
    /// the device is refused and nothing changes.
    pub fn add_device(&mut self, device_info: DeviceInfo) -> (result: Result<
        ClientAction,
        P4RuntimeError,
    >)
        requires
            old(self).wf(),
        ensures
            final(self).wf(),
            same_model(*old(self), *final(self)),
            final(self).devices().policy() == old(self).devices().policy(),
            endpoint_accepted(device_info.grpc_endpoint@) ==> result == Ok::<
                ClientAction,
                P4RuntimeError,
            >(ClientAction::Connect) && device_added(*old(self), *final(self), device_info),
            !endpoint_accepted(device_info.grpc_endpoint@) ==> same_fleet(
                *old(self),
                *final(self),
            ) && (result matches Err(P4RuntimeError::GrpcError { code, message }) && code
                == INVALID_ARGUMENT && message@ == INVALID_ENDPOINT@),
    {
        let accepted = endpoint_is_accepted(device_info.grpc_endpoint.as_str());
        self.register_device(device_info, accepted)
    }

    /// Forgets a device: its record, its tables and its state machine. An
    /// unknown device is no error.
    pub fn remove_device(&mut self, device_id: DeviceId) -> (result: Result<(), P4RuntimeError>)
        requires
            old(self).wf(),
        ensures
            final(self).wf(),
            same_model(*old(self), *final(self)),
            final(self).devices().policy() == old(self).devices().policy(),
            result is Ok,
            final(self).store()@ == old(self).store()@.remove(device_id),
            final(self).devices().records() == old(self).devices().records().remove(device_id),
            final(self).state().connected_devices@ == old(self).state().connected_devices@.remove(
                device_id,
            ),
    {
        broadcast use group_hash_axioms;

        let result = self.device_manager.remove_device(device_id);
        self.table_manager.remove_device(device_id);
        self.state.connected_devices.remove(&device_id);
        proof {
            assert(self.table_manager@.dom() =~= self.device_manager.records().dom());
            assert(self.state.connected_devices@.dom() =~= self.device_manager.records().dom());
        }
        result
    }

    /// Hands an event to the state machine of a registered device.
    pub fn handle_event(&mut self, device_id: DeviceId, event: ClientEvent) -> (result: Result<
        ClientAction,
        P4RuntimeError,
    >)
        requires
            old(self).wf(),
        ensures
            final(self).wf(),
            same_model(*old(self), *final(self)),
            final(self).store()@ == old(self).store()@,
            final(self).devices().policy() == old(self).devices().policy(),
            final(self).state().connected_devices@ == old(self).state().connected_devices@,
            match result {
                Ok(action) => old(self).devices().has_device(device_id) && action == step(
                    old(self).devices().records()[device_id].status,
                    old(self).devices().policy(),
                    event,
                ).1 && final(self).devices().records() == old(self).devices().records().insert(
                    device_id,
                    DeviceRecord {
                        status: step(
                            old(self).devices().records()[device_id].status,
                            old(self).devices().policy(),
                            event,
                        ).0,
                        ..old(self).devices().records()[device_id]
                    },
                ),
                Err(e) => !old(self).devices().has_device(device_id) && e == (
                P4RuntimeError::DeviceNotFound { device_id }) && final(self).devices().records()
                    == old(self).devices().records(),
            },
    {
        let result = self.device_manager.handle_event(device_id, event);
        proof {
            assert(self.device_manager.records().dom() =~= old(
                self,
            ).device_manager.records().dom());
        }
        result
    }

    /// Takes the report that a device is connected. Where the state machine
    /// asks for a push, the device is asked to hold the desired table, and
    /// the push that follows, if one does, is handed out.
    pub fn connection_established(&mut self, device_id: DeviceId) -> (result: Result<
        Option<SyncPlan>,
        P4RuntimeError,
    >)
        requires
            old(self).wf(),
        ensures
            final(self).wf(),
            same_model(*old(self), *final(self)),
            final(self).store()@ == old(self).store()@,
            final(self).devices().policy() == old(self).devices().policy(),
            final(self).state().connected_devices@ == old(self).state().connected_devices@,
            match result {
                Err(e) => !old(self).devices().has_device(device_id) && e == (
                P4RuntimeError::DeviceNotFound { device_id }) && final(self).devices().records()
                    == old(self).devices().records(),
                Ok(plan) => {
                    let before = old(self).devices().records()[device_id];
                    let policy = old(self).devices().policy();
                    let connected = DeviceRecord {
                        status: step(before.status, policy, ClientEvent::ConnectSucceeded).0,
                        ..before
                    };
                    let snapshot = old(self).store().snapshot(device_id);
                    let pushes = step(before.status, policy, ClientEvent::ConnectSucceeded).1
                        == ClientAction::Push;
                    &&& old(self).devices().has_device(device_id)
                    &&& final(self).devices().records() == old(self).devices().records().insert(
                        device_id,
                        if pushes {
                            record_after_sync(connected, policy, snapshot, old(self).desired())
                        } else {
                            connected
                        },
                    )
                    &&& match plan {
                        Some(p) => pushes && sync_decision(
                            connected,
                            snapshot,
                            old(self).desired(),
                        ) is Push && is_plan_for(p, connected, snapshot, old(self).desired()),
                        None => !pushes || !(sync_decision(
                            connected,
                            snapshot,
                            old(self).desired(),
                        ) is Push),
                    }
                },
            },
    {
        let action = match self.handle_event(device_id, ClientEvent::ConnectSucceeded) {
            Ok(action) => action,
            Err(e) => {
                return Err(e);
            },
        };
        match action {
            ClientAction::Push => {
                let ghost mid = self.device_manager.records();
                let result = self.apply_routing_table_to_device(device_id);
                proof {
                    assert(mid.insert(device_id, self.device_manager.records()[device_id])
                        =~= old(self).device_manager.records().insert(
                        device_id,
                        self.device_manager.records()[device_id],
                    ));
                }
                result
            },
            _ => Ok(None),
        }
    }

    /// Takes the report that a connection attempt failed with `error`, and
    /// says what is told of the failure: its class, and whether the device
    /// is retried or reported as degraded.
    pub fn connection_failed(&mut self, device_id: DeviceId, error: &P4RuntimeError) -> (result:
        Result<FailureReport, P4RuntimeError>)
        requires
            old(self).wf(),
        ensures
            final(self).wf(),
            same_model(*old(self), *final(self)),
            final(self).store()@ == old(self).store()@,
            final(self).devices().policy() == old(self).devices().policy(),
            final(self).state().connected_devices@ == old(self).state().connected_devices@,
            match result {
                Ok(failure) => old(self).devices().has_device(device_id) && failure == (
                FailureReport {
                    device_id,
                    operation: OperationKind::Connect,
                    class: error.class(),
                    action: step(
                        old(self).devices().records()[device_id].status,
                        old(self).devices().policy(),
                        ClientEvent::ConnectFailed(error.class()),
                    ).1,
                }) && final(self).devices().records() == old(self).devices().records().insert(
                    device_id,
                    DeviceRecord {
                        status: step(
                            old(self).devices().records()[device_id].status,
                            old(self).devices().policy(),
                            ClientEvent::ConnectFailed(error.class()),
                        ).0,
                        ..old(self).devices().records()[device_id]
                    },
                ),
                Err(e) => !old(self).devices().has_device(device_id) && e == (
                P4RuntimeError::DeviceNotFound { device_id }) && final(self).devices().records()
                    == old(self).devices().records(),
            },
    {
        let class = error.classification();
        match self.handle_event(device_id, ClientEvent::ConnectFailed(class)) {
            Ok(action) => Ok(
                FailureReport { device_id, operation: OperationKind::Connect, class, action },
            ),
            Err(e) => Err(e),
        }
    }

    /// Takes the report of a push. Where every operation succeeded, the
    /// store follows the device; where any failed, the store stays as it
    /// was. Where a new desired table arrived while the push was under way,
    /// the device is asked to hold it, and the push that follows, if one
    /// does, is handed out with the report.
    pub fn complete_sync(
        &mut self,
        plan: SyncPlan,
        outcomes: &Vec<Result<(), P4RuntimeError>>,
    ) -> (result: (SyncReport, Option<SyncPlan>))
        requires
            old(self).wf(),
        ensures
            final(self).wf(),
            same_model(*old(self), *final(self)),
            final(self).devices().policy() == old(self).devices().policy(),
            final(self).state().connected_devices@ == old(self).state().connected_devices@,
            !old(self).devices().has_device(plan.device_id) || old(
                self,
            ).devices().records()[plan.device_id].in_flight != Some(plan.ticket) ==> {
                &&& result.0 == SyncReport::Stale
                &&& result.1 is None
                &&& final(self).devices().records() == old(self).devices().records()
                &&& final(self).store()@ == old(self).store()@
            },
            old(self).devices().has_device(plan.device_id) && old(
                self,
            ).devices().records()[plan.device_id].in_flight == Some(plan.ticket) ==> {
                let record = old(self).devices().records()[plan.device_id];
                let policy = old(self).devices().policy();
                let failure = push_failure(old(self).store()@, plan, outcomes@);
                let reported = record_after_push(record, policy, failure, plan.operations@);
                let snapshot = snapshot_of(final(self).store()@, plan.device_id);
                let again = failure is None && record.resync_needed;
                &&& final(self).store()@ == store_after_push(old(self).store()@, plan, outcomes@)
                &&& result.0 == (match failure {
                    None => SyncReport::Committed { resync: record.resync_needed },
                    Some(class) => SyncReport::Failed {
                        failure: FailureReport {
                            device_id: plan.device_id,
                            operation: OperationKind::Write,
                            class,
                            action: step(record.status, policy, ClientEvent::PushFailed(class)).1,
                        },
                    },
                })
                &&& final(self).devices().records() == old(self).devices().records().insert(
                    plan.device_id,
                    if again {
                        record_after_sync(reported, policy, snapshot, old(self).desired())
                    } else {
                        reported
                    },
                )
                &&& match result.1 {
                    Some(p) => again && sync_decision(reported, snapshot, old(self).desired())
                        is Push && is_plan_for(p, reported, snapshot, old(self).desired()),
                    None => !again || !(sync_decision(reported, snapshot, old(self).desired())
                        is Push),
                }
            },
    {
        let device_id = plan.device_id;
        let report = self.device_manager.finish_sync(&mut self.table_manager, plan, outcomes);
        proof {
            assert(self.device_manager.records().dom() =~= old(
                self,
            ).device_manager.records().dom());
            assert(self.table_manager@.dom() =~= old(self).table_manager@.dom());
        }
        match report {
            SyncReport::Committed { resync: true } => {
                let ghost mid = self.device_manager.records();
                let next = match self.apply_routing_table_to_device(device_id) {
                    Ok(next) => next,
                    Err(_) => None,
                };
                proof {
                    assert(mid.insert(device_id, self.device_manager.records()[device_id])
                        =~= old(self).device_manager.records().insert(
                        device_id,
                        self.device_manager.records()[device_id],
                    ));
                }
                (report, next)
            },
            _ => (report, None),
        }
    }

    /// The counters of the registered devices, by device, from the replies
    /// that came in.
    pub fn get_statistics(
        &self,
        replies: Vec<(DeviceId, Result<Statistics, P4RuntimeError>)>,
    ) -> (result: Result<HashMap<DeviceId, Statistics>, P4RuntimeError>)
        ensures
            result matches Ok(stats) && statistics_of(
                stats@,
                self.devices().records(),
                replies@,
            ),
    {
        Ok(self.device_manager.get_all_device_statistics(replies))
    }

    /// The registered devices, each once, in no particular order.
    pub fn list_devices(&self) -> (out: Vec<DeviceInfo>)
        requires
            self.wf(),
        ensures
            out@.len() == self.devices().records().dom().len(),
            forall|i: int|
                0 <= i < out@.len() ==> self.devices().has_device((#[trigger] out@[i]).device_id)
                    && out@[i].same_device(self.devices().records()[out@[i].device_id].info),
            forall|d: DeviceId| #[trigger]
                self.devices().has_device(d) ==> exists|i: int|
                    0 <= i < out@.len() && (#[trigger] out@[i]).device_id == d,
    {
        self.device_manager.list_devices()
    }

    /// Every route, in table order.
    pub fn list_routes(&self) -> (out: Vec<RouteEntry>)
        ensures
            out@ == self.routing().routes(),
    {
        self.routing_manager.get_all_routes()
    }

    /// Every ARP entry, each once, in no particular order.
    pub fn list_arp_entries(&self) -> (out: Vec<ArpEntry>)
        requires
            self.wf(),
        ensures
            out@.len() == self.routing().arp().dom().len(),
            forall|i: int|
                0 <= i < out@.len() ==> self.routing().arp().contains_key(
                    (#[trigger] out@[i]).ip.0,
                ) && self.routing().arp()[out@[i].ip.0] == out@[i],
            forall|k: u32| #[trigger]
                self.routing().arp().contains_key(k) ==> out@.contains(self.routing().arp()[k]),
    {
        self.routing_manager.get_all_arp_entries()
    }

    /// Every port, each once, in no particular order.
    pub fn list_ports(&self) -> (out: Vec<PortInfo>)
        requires
            self.wf(),
        ensures
            out@.len() == self.routing().ports().dom().len(),
            forall|i: int|
                0 <= i < out@.len() ==> self.routing().ports().contains_key(
                    (#[trigger] out@[i]).port_id,
                ) && self.routing().ports()[out@[i].port_id] == out@[i],
            forall|k: PortId| #[trigger]
                self.routing().ports().contains_key(k) ==> out@.contains(
                    self.routing().ports()[k],
                ),
    {
        self.routing_manager.get_all_ports()
    }

    /// The routing model, for reading.
    pub fn routing_manager(&self) -> (r: &RoutingManager)
        ensures
            *r == self.routing(),
    {
        &self.routing_manager
    }

    /// The table store, for reading.
    pub fn table_manager(&self) -> (r: &TableManager)
        ensures
            *r == self.store(),
    {
        &self.table_manager
    }

    /// The device manager, for reading.
    pub fn device_manager(&self) -> (r: &DeviceManager)
        ensures
            *r == self.devices(),
    {
        &self.device_manager
    }

    /// The controller's own record of its devices.
    pub fn get_state(&self) -> (r: &ControllerState)
        ensures
            *r == self.state(),
    {
        &self.state
    }
}

impl Default for P4Controller {
    fn default() -> (r: Self)
        ensures
            r.wf(),
            r.routing().routes() == Seq::<RouteEntry>::empty(),
            r.devices().records() == Map::<DeviceId, DeviceRecord>::empty(),
    {
        P4Controller::new()
    }
}

} // verus!
