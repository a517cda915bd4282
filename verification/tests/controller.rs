use p4_controller::P4Controller;
use p4_controller::p4runtime_client::{ClientAction, ClientEvent, ConnectionState};
use p4_controller::sync::{OperationKind, SyncPlan, SyncReport, TableOperation};
use p4_controller::types::{
    ArpEntry, DeviceInfo, ErrorClass, Ipv4Address, MacAddress, P4RuntimeError, PortInfo,
    RouteEntry, Statistics, TableAction, TableEntry, TableKey,
};

fn ip(a: u8, b: u8, c: u8, d: u8) -> Ipv4Address {
    Ipv4Address::from_octets([a, b, c, d])
}

fn device(device_id: u64) -> DeviceInfo {
    DeviceInfo {
        device_id,
        name: format!("switch-{}", device_id),
        grpc_endpoint: format!("http://10.0.0.{}:9559", device_id),
        p4info: None,
    }
}

fn direct(prefix: Ipv4Address, prefix_len: u8, metric: u32) -> RouteEntry {
    RouteEntry { prefix, prefix_len, next_hop: None, interface: "eth0".to_string(), metric }
}

fn via(prefix: Ipv4Address, prefix_len: u8, next_hop: Ipv4Address) -> RouteEntry {
    RouteEntry {
        prefix,
        prefix_len,
        next_hop: Some(next_hop),
        interface: "eth0".to_string(),
        metric: 1,
    }
}

fn local_entry(prefix: Ipv4Address, prefix_len: u8, metric: u32, port: u32) -> TableEntry {
    TableEntry {
        key: TableKey { ipv4_dst: prefix, prefix_len },
        action: TableAction::Ipv4Forward { dst_mac: MacAddress::new([8, 0, 0, 0, 0, 1]), port },
        priority: metric,
    }
}

fn all_ok(plan: &SyncPlan) -> Vec<Result<(), P4RuntimeError>> {
    plan.operations.iter().map(|_| Ok(())).collect()
}

fn unavailable() -> P4RuntimeError {
    P4RuntimeError::GrpcError { code: 14, message: "unavailable".to_string() }
}

/// Connects a device and applies its first push.
fn bring_up(c: &mut P4Controller, id: u64) {
    assert_eq!(c.add_device(device(id)).unwrap(), ClientAction::Connect);
    if let Some(plan) = c.connection_established(id).unwrap() {
        let outcomes = all_ok(&plan);
        assert!(matches!(c.complete_sync(plan, &outcomes).0, SyncReport::Committed { .. }));
    }
    assert_eq!(c.device_manager().device_status(id).unwrap().state, ConnectionState::Synced);
}

#[test]
fn a_new_controller_is_empty() {
    let c = P4Controller::new();
    assert!(c.list_routes().is_empty());
    assert!(c.list_arp_entries().is_empty());
    assert!(c.list_ports().is_empty());
    assert!(c.list_devices().is_empty());
    assert!(c.get_state().connected_devices.is_empty());
    let d = P4Controller::default();
    assert!(d.list_routes().is_empty());
}

#[test]
fn initialize_installs_the_default_configuration() {
    let mut c = P4Controller::new();
    assert!(c.initialize().unwrap().is_empty());
    let routes = c.list_routes();
    assert_eq!(routes.len(), 2);
    // The local route has the lower metric and stands first.
    assert_eq!(routes[0].prefix, ip(192, 168, 1, 0));
    assert_eq!(routes[0].prefix_len, 24);
    assert_eq!(routes[0].next_hop, None);
    assert_eq!(routes[0].interface, "eth0");
    assert_eq!(routes[0].metric, 0);
    assert_eq!(routes[1].prefix, ip(0, 0, 0, 0));
    assert_eq!(routes[1].prefix_len, 0);
    assert_eq!(routes[1].next_hop, Some(ip(192, 168, 1, 1)));
    assert_eq!(routes[1].interface, "eth0");
    assert_eq!(routes[1].metric, 1);
    let arps = c.list_arp_entries();
    assert_eq!(arps.len(), 1);
    assert_eq!(arps[0].ip, ip(192, 168, 1, 1));
    assert_eq!(arps[0].mac, MacAddress::new([0x00, 0x11, 0x22, 0x33, 0x44, 0x55]));
    assert_eq!(arps[0].interface, "eth0");
    // Twice is the same as once.
    c.initialize().unwrap();
    assert_eq!(c.list_routes().len(), 2);
    assert_eq!(c.list_arp_entries().len(), 1);
}

#[test]
fn a_device_gets_the_whole_table_once_it_is_connected() {
    let mut c = P4Controller::new();
    c.initialize().unwrap();
    assert_eq!(c.add_device(device(1)).unwrap(), ClientAction::Connect);
    assert_eq!(c.get_state().connected_devices.len(), 1);
    assert_eq!(c.get_state().connected_devices[&1].name, "switch-1");
    assert!(c.table_manager().get_ipv4_lpm_entries(1).unwrap().is_empty());
    let plan = c.connection_established(1).unwrap().unwrap();
    let gateway = TableEntry {
        key: TableKey { ipv4_dst: ip(0, 0, 0, 0), prefix_len: 0 },
        action: TableAction::Ipv4Forward {
            dst_mac: MacAddress::new([0x00, 0x11, 0x22, 0x33, 0x44, 0x55]),
            port: 1,
        },
        priority: 1,
    };
    let local = local_entry(ip(192, 168, 1, 0), 24, 0, 1);
    assert_eq!(plan.desired, vec![local, gateway]);
    assert_eq!(
        plan.operations,
        vec![TableOperation::Upsert(local), TableOperation::Upsert(gateway)]
    );
    let outcomes = all_ok(&plan);
    let (report, next) = c.complete_sync(plan, &outcomes);
    assert_eq!(report, SyncReport::Committed { resync: false });
    assert!(next.is_none());
    assert_eq!(c.table_manager().get_ipv4_lpm_entries(1).unwrap(), vec![local, gateway]);
    assert_eq!(c.device_manager().device_status(1).unwrap().state, ConnectionState::Synced);
}

#[test]
fn a_change_of_the_model_is_pushed_to_every_device() {
    let mut c = P4Controller::new();
    bring_up(&mut c, 1);
    bring_up(&mut c, 2);
    let mut plans = c.add_route(direct(ip(10, 0, 0, 0), 24, 3)).unwrap();
    plans.sort_by_key(|p| p.device_id);
    assert_eq!(plans.len(), 2);
    let e = local_entry(ip(10, 0, 0, 0), 24, 3, 1);
    for plan in plans {
        assert_eq!(plan.operations, vec![TableOperation::Upsert(e)]);
        let outcomes = all_ok(&plan);
        assert_eq!(c.complete_sync(plan, &outcomes).0, SyncReport::Committed { resync: false });
    }
    assert_eq!(c.table_manager().get_ipv4_lpm_entries(1).unwrap(), vec![e]);
    assert_eq!(c.table_manager().get_ipv4_lpm_entries(2).unwrap(), vec![e]);
    // Nothing changed: nothing is sent.
    assert!(c.apply_routing_table_to_all_devices().unwrap().is_empty());
    assert!(c.apply_routing_table_to_device(1).unwrap().is_none());
    // The same route again changes nothing on the devices.
    assert!(c.add_route(direct(ip(10, 0, 0, 0), 24, 3)).unwrap().is_empty());
}

#[test]
fn removing_a_route_deletes_its_entry() {
    let mut c = P4Controller::new();
    bring_up(&mut c, 1);
    for plan in c.add_route(direct(ip(10, 0, 0, 0), 24, 3)).unwrap() {
        let outcomes = all_ok(&plan);
        c.complete_sync(plan, &outcomes);
    }
    let plans = c.remove_route(ip(10, 0, 0, 0), 24).unwrap();
    assert_eq!(plans.len(), 1);
    assert_eq!(
        plans[0].operations,
        vec![TableOperation::Delete(TableKey { ipv4_dst: ip(10, 0, 0, 0), prefix_len: 24 })]
    );
    assert!(plans[0].desired.is_empty());
    // Removing what is not there sends nothing new while the push is under way.
    assert!(c.remove_route(ip(10, 9, 0, 0), 24).unwrap().is_empty());
}

#[test]
fn a_rejected_route_changes_nothing() {
    let mut c = P4Controller::new();
    bring_up(&mut c, 1);
    assert!(matches!(
        c.add_route(direct(ip(10, 0, 0, 0), 33, 3)),
        Err(P4RuntimeError::InvalidTableEntry(_))
    ));
    assert!(c.list_routes().is_empty());
    assert!(!c.device_manager().is_syncing(1));
}

#[test]
fn arp_and_port_changes_reach_the_devices() {
    let mut c = P4Controller::new();
    bring_up(&mut c, 1);
    // Parked: the next hop is unresolved.
    assert!(c.add_route(via(ip(10, 0, 0, 0), 24, ip(10, 0, 0, 1))).unwrap().is_empty());
    let mac = MacAddress::new([0xaa, 0xbb, 0xcc, 0xdd, 0xee, 0xff]);
    let plans = c
        .add_arp_entry(ArpEntry { ip: ip(10, 0, 0, 1), mac, interface: "eth0".to_string() })
        .unwrap();
    assert_eq!(plans.len(), 1);
    let key = TableKey { ipv4_dst: ip(10, 0, 0, 0), prefix_len: 24 };
    let on_default = TableEntry {
        key,
        action: TableAction::Ipv4Forward { dst_mac: mac, port: 1 },
        priority: 1,
    };
    assert_eq!(plans[0].operations, vec![TableOperation::Upsert(on_default)]);
    for plan in plans {
        let outcomes = all_ok(&plan);
        c.complete_sync(plan, &outcomes);
    }
    // The interface gets a port: the entry moves to it.
    let plans = c
        .add_port(PortInfo {
            port_id: 6,
            name: "eth0".to_string(),
            mac_address: MacAddress::new([2, 0, 0, 0, 0, 6]),
            ip_address: Some(ip(10, 0, 0, 254)),
            is_up: true,
        })
        .unwrap();
    assert_eq!(plans.len(), 1);
    let on_six =
        TableEntry { key, action: TableAction::Ipv4Forward { dst_mac: mac, port: 6 }, priority: 1 };
    assert_eq!(plans[0].operations, vec![TableOperation::Upsert(on_six)]);
    for plan in plans {
        let outcomes = all_ok(&plan);
        c.complete_sync(plan, &outcomes);
    }
    // The link state does not enter the table.
    assert!(c.update_port_status(6, false).unwrap().is_empty());
    assert!(!c.list_ports()[0].is_up);
    // Without the port the entry falls back to the default port.
    let plans = c.remove_port(6).unwrap();
    assert_eq!(plans[0].operations, vec![TableOperation::Upsert(on_default)]);
    for plan in plans {
        let outcomes = all_ok(&plan);
        c.complete_sync(plan, &outcomes);
    }
    // Without the ARP entry the route is parked and its entry dropped.
    let plans = c.remove_arp_entry(ip(10, 0, 0, 1)).unwrap();
    assert_eq!(plans[0].operations, vec![TableOperation::Delete(key)]);
}

#[test]
fn changes_during_a_push_are_pushed_right_after_it() {
    let mut c = P4Controller::new();
    bring_up(&mut c, 1);
    let a = local_entry(ip(10, 0, 0, 0), 24, 3, 1);
    let b = local_entry(ip(10, 0, 1, 0), 24, 4, 1);
    let d = local_entry(ip(10, 0, 2, 0), 24, 5, 1);
    let mut plans = c.add_route(direct(ip(10, 0, 0, 0), 24, 3)).unwrap();
    let first = plans.pop().unwrap();
    assert!(c.add_route(direct(ip(10, 0, 1, 0), 24, 4)).unwrap().is_empty());
    assert!(c.add_route(direct(ip(10, 0, 2, 0), 24, 5)).unwrap().is_empty());
    let outcomes = all_ok(&first);
    let (report, next) = c.complete_sync(first, &outcomes);
    assert_eq!(report, SyncReport::Committed { resync: true });
    let next = next.unwrap();
    assert_eq!(next.operations, vec![TableOperation::Upsert(b), TableOperation::Upsert(d)]);
    assert_eq!(next.desired, vec![a, b, d]);
    let outcomes = all_ok(&next);
    let (report, next) = c.complete_sync(next, &outcomes);
    assert_eq!(report, SyncReport::Committed { resync: false });
    assert!(next.is_none());
    assert_eq!(c.table_manager().get_ipv4_lpm_entries(1).unwrap(), vec![a, b, d]);
}

#[test]
fn a_failed_push_is_repeated_after_reconnection() {
    let mut c = P4Controller::new();
    bring_up(&mut c, 1);
    bring_up(&mut c, 2);
    let mut plans = c.add_route(direct(ip(10, 0, 0, 0), 24, 3)).unwrap();
    plans.sort_by_key(|p| p.device_id);
    let plan_b = plans.pop().unwrap();
    let plan_a = plans.pop().unwrap();
    let requests = plan_a.operations.clone();
    let (report, next) = c.complete_sync(plan_a, &vec![Err(unavailable())]);
    match report {
        SyncReport::Failed { failure } => {
            assert_eq!(failure.device_id, 1);
            assert_eq!(failure.operation, OperationKind::Write);
            assert_eq!(failure.class, ErrorClass::Transient);
            assert_eq!(failure.action, ClientAction::Retry { delay_ms: 100 });
        }
        other => panic!("expected a failure, got {:?}", other),
    }
    assert!(next.is_none());
    let outcomes = all_ok(&plan_b);
    assert_eq!(c.complete_sync(plan_b, &outcomes).0, SyncReport::Committed { resync: false });
    assert!(c.table_manager().get_ipv4_lpm_entries(1).unwrap().is_empty());
    assert_eq!(c.table_manager().get_ipv4_lpm_entries(2).unwrap().len(), 1);
    // After the backoff the device is connected again and gets the same push.
    assert_eq!(c.handle_event(1, ClientEvent::ConnectRequested).unwrap(), ClientAction::Connect);
    let again = c.connection_established(1).unwrap().unwrap();
    assert_eq!(again.operations, requests);
    let outcomes = all_ok(&again);
    assert_eq!(c.complete_sync(again, &outcomes).0, SyncReport::Committed { resync: false });
    assert_eq!(c.table_manager().get_ipv4_lpm_entries(1).unwrap().len(), 1);
}

#[test]
fn failed_connections_are_reported_with_their_class() {
    let mut c = P4Controller::new();
    c.add_device(device(1)).unwrap();
    let failure = c.connection_failed(1, &unavailable()).unwrap();
    assert_eq!(failure.device_id, 1);
    assert_eq!(failure.operation, OperationKind::Connect);
    assert_eq!(failure.class, ErrorClass::Transient);
    assert_eq!(failure.action, ClientAction::Retry { delay_ms: 100 });
    assert_eq!(c.device_manager().device_status(1).unwrap().state, ConnectionState::Error);
    assert!(matches!(
        c.connection_failed(2, &unavailable()),
        Err(P4RuntimeError::DeviceNotFound { device_id: 2 })
    ));
    assert!(matches!(
        c.connection_established(2),
        Err(P4RuntimeError::DeviceNotFound { device_id: 2 })
    ));
    assert!(matches!(
        c.apply_routing_table_to_device(2),
        Err(P4RuntimeError::DeviceNotFound { device_id: 2 })
    ));
}

#[test]
fn removing_a_device_forgets_it_everywhere() {
    let mut c = P4Controller::new();
    bring_up(&mut c, 1);
    bring_up(&mut c, 2);
    let mut plans = c.add_route(direct(ip(10, 0, 0, 0), 24, 3)).unwrap();
    plans.sort_by_key(|p| p.device_id);
    let plan_b = plans.pop().unwrap();
    assert!(c.remove_device(2).is_ok());
    assert!(c.remove_device(2).is_ok());
    assert_eq!(c.list_devices().len(), 1);
    assert!(c.table_manager().get_ipv4_lpm_entries(2).is_err());
    assert!(!c.get_state().connected_devices.contains_key(&2));
    // The report of a push to a removed device is stale.
    let outcomes = all_ok(&plan_b);
    let (report, next) = c.complete_sync(plan_b, &outcomes);
    assert_eq!(report, SyncReport::Stale);
    assert!(next.is_none());
}

#[test]
fn statistics_are_gathered_by_device() {
    let mut c = P4Controller::new();
    bring_up(&mut c, 1);
    bring_up(&mut c, 2);
    let mut one = Statistics::default();
    one.packets_processed = 7;
    one.table_hits.insert("ipv4_lpm".to_string(), 5);
    let got = c.get_statistics(vec![(1, Ok(one)), (2, Err(unavailable()))]).unwrap();
    assert_eq!(got.len(), 1);
    assert_eq!(got[&1].packets_processed, 7);
    assert_eq!(got[&1].table_hits["ipv4_lpm"], 5);
}

#[test]
fn a_device_with_a_bad_endpoint_is_registered_nowhere() {
    let mut c = P4Controller::new();
    let bad = DeviceInfo {
        device_id: 5,
        name: "switch-5".to_string(),
        grpc_endpoint: "not a uri".to_string(),
        p4info: None,
    };
    match c.add_device(bad) {
        Err(P4RuntimeError::GrpcError { code, message }) => {
            assert_eq!(code, 3);
            assert_eq!(message, "Invalid endpoint URI");
        }
        other => panic!("expected a refusal, got {:?}", other),
    }
    assert!(c.list_devices().is_empty());
    assert!(c.table_manager().get_ipv4_lpm_entries(5).is_err());
    assert!(c.get_state().connected_devices.is_empty());
    assert!(c.device_manager().device_status(5).is_none());
}

#[test]
fn registration_in_the_controller_follows_the_verdict_on_the_endpoint() {
    let mut c = P4Controller::new();
    assert!(c.register_device(device(1), false).is_err());
    assert!(c.list_devices().is_empty());
    assert_eq!(c.register_device(device(1), true).unwrap(), ClientAction::Connect);
    assert_eq!(c.list_devices().len(), 1);
    assert!(c.table_manager().get_ipv4_lpm_entries(1).unwrap().is_empty());
    assert_eq!(c.get_state().connected_devices[&1].grpc_endpoint, "http://10.0.0.1:9559");
}

#[test]
fn adding_a_device_again_starts_it_over() {
    let mut c = P4Controller::new();
    bring_up(&mut c, 1);
    for plan in c.add_route(direct(ip(10, 0, 0, 0), 24, 3)).unwrap() {
        let outcomes = all_ok(&plan);
        c.complete_sync(plan, &outcomes);
    }
    assert_eq!(c.table_manager().get_ipv4_lpm_entries(1).unwrap().len(), 1);
    assert_eq!(c.add_device(device(1)).unwrap(), ClientAction::Connect);
    assert!(c.table_manager().get_ipv4_lpm_entries(1).unwrap().is_empty());
    assert_eq!(c.device_manager().device_status(1).unwrap().state, ConnectionState::Connecting);
    // Once connected it is sent the whole table again.
    let plan = c.connection_established(1).unwrap().unwrap();
    assert_eq!(plan.operations.len(), 1);
}
