use p4_controller::device_manager::DeviceManager;
use p4_controller::entries::MALFORMED_ENTRY_SET;
use p4_controller::p4runtime_client::{
    ClientAction, ClientEvent, ClientStatus, ConnectionState, P4RuntimeClient,
};
use p4_controller::retry::RetryPolicy;
use p4_controller::sync::{
    build_operations, check_batch, FailureReport, OperationKind, SyncPlan, SyncReport,
    TableOperation,
};
use p4_controller::table_manager::TableManager;
use p4_controller::types::{
    DeviceInfo, ErrorClass, Ipv4Address, MacAddress, P4RuntimeError, Statistics, TableAction,
    TableEntry, TableKey,
};

fn ip(a: u8, b: u8, c: u8, d: u8) -> Ipv4Address {
    Ipv4Address::from_octets([a, b, c, d])
}

fn entry(prefix: Ipv4Address, prefix_len: u8, port: u32, priority: u32) -> TableEntry {
    TableEntry {
        key: TableKey { ipv4_dst: prefix, prefix_len },
        action: TableAction::Ipv4Forward { dst_mac: MacAddress::new([2, 0, 0, 0, 0, 1]), port },
        priority,
    }
}

fn device(device_id: u64) -> DeviceInfo {
    DeviceInfo {
        device_id,
        name: format!("switch-{}", device_id),
        grpc_endpoint: format!("http://10.0.0.{}:9559", device_id),
        p4info: None,
    }
}

fn policy() -> RetryPolicy {
    RetryPolicy { base_delay_ms: 100, max_delay_ms: 1000, max_failures: 4 }
}

fn unavailable() -> P4RuntimeError {
    P4RuntimeError::GrpcError { code: 14, message: "unavailable".to_string() }
}

fn rejected() -> P4RuntimeError {
    P4RuntimeError::GrpcError { code: 3, message: "invalid argument".to_string() }
}

fn all_ok(n: usize) -> Vec<Result<(), P4RuntimeError>> {
    (0..n).map(|_| Ok(())).collect()
}

/// A manager and a store that both know `ids`, every device connected.
fn connected(ids: &[u64]) -> (DeviceManager, TableManager) {
    let mut dm = DeviceManager::with_policy(policy());
    let mut tm = TableManager::new();
    for id in ids {
        assert_eq!(dm.add_device(device(*id)).unwrap(), ClientAction::Connect);
        tm.initialize_device_tables(*id);
        assert_eq!(
            dm.handle_event(*id, ClientEvent::ConnectSucceeded).unwrap(),
            ClientAction::Push
        );
    }
    (dm, tm)
}

fn state_of(dm: &DeviceManager, id: u64) -> ConnectionState {
    dm.device_status(id).unwrap().state
}

#[test]
fn backoff_doubles_from_the_base_up_to_the_cap() {
    let p = policy();
    assert_eq!(p.delay_after(0), 0);
    assert_eq!(p.delay_after(1), 100);
    assert_eq!(p.delay_after(2), 200);
    assert_eq!(p.delay_after(3), 400);
    assert_eq!(p.delay_after(4), 800);
    assert_eq!(p.delay_after(5), 1000);
    assert_eq!(p.delay_after(6), 1000);
    assert_eq!(p.delay_after(u32::MAX), 1000);
}

#[test]
fn backoff_handles_degenerate_policies() {
    let zero = RetryPolicy { base_delay_ms: 0, max_delay_ms: 1000, max_failures: 3 };
    assert_eq!(zero.delay_after(1), 0);
    assert_eq!(zero.delay_after(50), 0);
    let inverted = RetryPolicy { base_delay_ms: 500, max_delay_ms: 100, max_failures: 3 };
    assert_eq!(inverted.delay_after(1), 100);
    assert_eq!(inverted.delay_after(9), 100);
    let exact = RetryPolicy { base_delay_ms: 250, max_delay_ms: 1000, max_failures: 3 };
    assert_eq!(exact.delay_after(3), 1000);
    assert_eq!(exact.delay_after(4), 1000);
    let huge = RetryPolicy { base_delay_ms: 1, max_delay_ms: u64::MAX, max_failures: 3 };
    assert_eq!(huge.delay_after(64), 1u64 << 63);
    assert_eq!(huge.delay_after(65), u64::MAX);
    assert_eq!(huge.delay_after(1000), u64::MAX);
    let odd = RetryPolicy { base_delay_ms: 3, max_delay_ms: 13, max_failures: 3 };
    assert_eq!(odd.delay_after(2), 6);
    assert_eq!(odd.delay_after(3), 12);
    assert_eq!(odd.delay_after(4), 13);
}

#[test]
fn a_new_client_is_disconnected() {
    let c = P4RuntimeClient::new(9);
    assert_eq!(
        c.status(),
        ClientStatus {
            device_id: 9,
            state: ConnectionState::Disconnected,
            connected: false,
            consecutive_failures: 0,
            degraded: false,
        }
    );
}

#[test]
fn client_is_synced_after_connect_and_one_push() {
    let p = policy();
    let mut c = P4RuntimeClient::new(1);
    assert_eq!(c.handle(&p, ClientEvent::ConnectRequested), ClientAction::Connect);
    assert_eq!(c.status().state, ConnectionState::Connecting);
    assert_eq!(c.handle(&p, ClientEvent::ConnectSucceeded), ClientAction::Push);
    assert_eq!(c.status().state, ConnectionState::Connecting);
    assert!(c.status().connected);
    assert_eq!(c.handle(&p, ClientEvent::PushSucceeded), ClientAction::Nothing);
    assert_eq!(c.status().state, ConnectionState::Synced);
    assert_eq!(c.handle(&p, ClientEvent::PushSucceeded), ClientAction::Nothing);
    assert_eq!(c.status().state, ConnectionState::Synced);
}

#[test]
fn events_that_do_not_fit_the_state_change_nothing() {
    let p = policy();
    let mut c = P4RuntimeClient::new(1);
    let fresh = c.status();
    for event in [
        ClientEvent::ConnectSucceeded,
        ClientEvent::ConnectFailed(ErrorClass::Transient),
        ClientEvent::PushSucceeded,
        ClientEvent::PushFailed(ErrorClass::Permanent),
    ] {
        assert_eq!(c.handle(&p, event), ClientAction::Nothing);
        assert_eq!(c.status(), fresh);
    }
    c.handle(&p, ClientEvent::ConnectRequested);
    let connecting = c.status();
    // A push cannot end before the connection stands.
    assert_eq!(c.handle(&p, ClientEvent::PushSucceeded), ClientAction::Nothing);
    assert_eq!(c.handle(&p, ClientEvent::PushFailed(ErrorClass::Transient)), ClientAction::Nothing);
    assert_eq!(c.handle(&p, ClientEvent::ConnectRequested), ClientAction::Nothing);
    assert_eq!(c.status(), connecting);
    c.handle(&p, ClientEvent::ConnectSucceeded);
    c.handle(&p, ClientEvent::PushSucceeded);
    let synced = c.status();
    assert_eq!(c.handle(&p, ClientEvent::ConnectRequested), ClientAction::Nothing);
    assert_eq!(c.handle(&p, ClientEvent::ConnectSucceeded), ClientAction::Nothing);
    assert_eq!(
        c.handle(&p, ClientEvent::ConnectFailed(ErrorClass::Transient)),
        ClientAction::Nothing
    );
    assert_eq!(c.status(), synced);
}

#[test]
fn transient_failures_are_retried_with_backoff_until_the_bound() {
    let p = policy();
    let mut c = P4RuntimeClient::new(1);
    let mut delays = Vec::new();
    loop {
        assert_eq!(c.handle(&p, ClientEvent::ConnectRequested), ClientAction::Connect);
        match c.handle(&p, ClientEvent::ConnectFailed(ErrorClass::Transient)) {
            ClientAction::Retry { delay_ms } => {
                assert_eq!(c.status().state, ConnectionState::Error);
                assert!(!c.status().degraded);
                delays.push(delay_ms);
            }
            ClientAction::ReportDegraded => break,
            other => panic!("unexpected action {:?}", other),
        }
    }
    assert_eq!(delays, vec![100, 200, 400]);
    let s = c.status();
    assert_eq!(s.state, ConnectionState::Error);
    assert_eq!(s.consecutive_failures, 4);
    assert!(s.degraded);
    assert!(!s.connected);
    // A degraded device is not stuck: asking again connects again.
    assert_eq!(c.handle(&p, ClientEvent::ConnectRequested), ClientAction::Connect);
    assert_eq!(c.handle(&p, ClientEvent::ConnectSucceeded), ClientAction::Push);
    assert_eq!(c.handle(&p, ClientEvent::PushSucceeded), ClientAction::Nothing);
    let s = c.status();
    assert_eq!(s.state, ConnectionState::Synced);
    assert_eq!(s.consecutive_failures, 0);
    assert!(!s.degraded);
}

#[test]
fn a_permanent_failure_degrades_at_once() {
    let p = policy();
    let mut c = P4RuntimeClient::new(1);
    c.handle(&p, ClientEvent::ConnectRequested);
    c.handle(&p, ClientEvent::ConnectSucceeded);
    c.handle(&p, ClientEvent::PushSucceeded);
    assert_eq!(
        c.handle(&p, ClientEvent::PushFailed(ErrorClass::Permanent)),
        ClientAction::ReportDegraded
    );
    let s = c.status();
    assert_eq!(s.state, ConnectionState::Error);
    assert_eq!(s.consecutive_failures, 1);
    assert!(s.degraded);
    assert!(!s.connected);
}

#[test]
fn a_failed_push_of_a_synced_device_is_retried() {
    let p = policy();
    let mut c = P4RuntimeClient::new(1);
    c.handle(&p, ClientEvent::ConnectRequested);
    c.handle(&p, ClientEvent::ConnectSucceeded);
    c.handle(&p, ClientEvent::PushSucceeded);
    assert_eq!(
        c.handle(&p, ClientEvent::PushFailed(ErrorClass::Transient)),
        ClientAction::Retry { delay_ms: 100 }
    );
    assert_eq!(c.status().state, ConnectionState::Error);
    assert_eq!(c.handle(&p, ClientEvent::ConnectRequested), ClientAction::Connect);
    assert_eq!(
        c.handle(&p, ClientEvent::ConnectFailed(ErrorClass::Transient)),
        ClientAction::Retry { delay_ms: 200 }
    );
}

#[test]
fn failure_count_stops_at_its_largest_value() {
    let p = RetryPolicy { base_delay_ms: 1, max_delay_ms: 8, max_failures: u32::MAX };
    let mut c = P4RuntimeClient::new(1);
    for _ in 0..40 {
        c.handle(&p, ClientEvent::ConnectRequested);
        c.handle(&p, ClientEvent::ConnectFailed(ErrorClass::Transient));
    }
    assert_eq!(c.status().consecutive_failures, 40);
    assert!(!c.status().degraded);
}

#[test]
fn zero_allowed_failures_degrade_on_the_first() {
    let p = RetryPolicy { base_delay_ms: 1, max_delay_ms: 8, max_failures: 0 };
    let mut c = P4RuntimeClient::new(1);
    c.handle(&p, ClientEvent::ConnectRequested);
    assert_eq!(
        c.handle(&p, ClientEvent::ConnectFailed(ErrorClass::Transient)),
        ClientAction::ReportDegraded
    );
}

#[test]
fn a_batch_succeeds_when_every_operation_did() {
    assert_eq!(check_batch(0, &vec![]), None);
    assert_eq!(check_batch(3, &all_ok(3)), None);
    assert_eq!(check_batch(3, &all_ok(5)), None);
}

#[test]
fn a_batch_fails_with_the_class_of_its_first_failure() {
    assert_eq!(
        check_batch(3, &vec![Ok(()), Err(unavailable()), Err(rejected())]),
        Some(ErrorClass::Transient)
    );
    assert_eq!(
        check_batch(3, &vec![Ok(()), Err(rejected()), Err(unavailable())]),
        Some(ErrorClass::Permanent)
    );
    assert_eq!(check_batch(3, &vec![Err(rejected())]), Some(ErrorClass::Permanent));
    assert_eq!(
        check_batch(3, &vec![Ok(()), Ok(()), Err(unavailable())]),
        Some(ErrorClass::Transient)
    );
    // Outcomes beyond the operations of the batch do not count.
    assert_eq!(check_batch(2, &vec![Ok(()), Ok(()), Err(rejected())]), None);
}

#[test]
fn a_batch_with_missing_outcomes_failed_transiently() {
    assert_eq!(check_batch(3, &all_ok(2)), Some(ErrorClass::Transient));
    assert_eq!(check_batch(1, &vec![]), Some(ErrorClass::Transient));
}

#[test]
fn operations_put_every_delete_before_any_write() {
    let a = entry(ip(10, 0, 0, 0), 24, 1, 1);
    let b = entry(ip(10, 0, 1, 0), 24, 1, 1);
    let k = TableKey { ipv4_dst: ip(10, 0, 9, 0), prefix_len: 24 };
    let l = TableKey { ipv4_dst: ip(10, 0, 8, 0), prefix_len: 24 };
    assert_eq!(
        build_operations(&vec![k, l], &vec![a, b]),
        vec![
            TableOperation::Delete(k),
            TableOperation::Delete(l),
            TableOperation::Upsert(a),
            TableOperation::Upsert(b),
        ]
    );
    assert!(build_operations(&vec![], &vec![]).is_empty());
}

#[test]
fn adding_a_device_asks_for_its_connection() {
    let mut dm = DeviceManager::new();
    assert!(dm.device_ids().is_empty());
    assert_eq!(dm.add_device(device(3)).unwrap(), ClientAction::Connect);
    assert_eq!(
        dm.device_status(3),
        Some(ClientStatus {
            device_id: 3,
            state: ConnectionState::Connecting,
            connected: false,
            consecutive_failures: 0,
            degraded: false,
        })
    );
    assert_eq!(dm.device_status(4), None);
    assert_eq!(dm.device_ids(), vec![3]);
    let listed = dm.list_devices();
    assert_eq!(listed.len(), 1);
    assert_eq!(listed[0].device_id, 3);
    assert_eq!(listed[0].name, "switch-3");
    assert_eq!(listed[0].grpc_endpoint, "http://10.0.0.3:9559");
}

#[test]
fn devices_are_listed_once_each() {
    let mut dm = DeviceManager::new();
    for id in [5u64, 1, 9, 5, 1] {
        dm.add_device(device(id)).unwrap();
    }
    let mut ids = dm.device_ids();
    ids.sort();
    assert_eq!(ids, vec![1, 5, 9]);
    let mut listed: Vec<u64> = dm.list_devices().iter().map(|d| d.device_id).collect();
    listed.sort();
    assert_eq!(listed, vec![1, 5, 9]);
    assert!(dm.remove_device(5).is_ok());
    assert!(dm.remove_device(77).is_ok());
    let mut ids = dm.device_ids();
    ids.sort();
    assert_eq!(ids, vec![1, 9]);
}

#[test]
fn default_policy_retries_from_100_ms_to_30_s() {
    let mut dm = DeviceManager::new();
    dm.add_device(device(1)).unwrap();
    let mut delays = Vec::new();
    loop {
        match dm.handle_event(1, ClientEvent::ConnectFailed(ErrorClass::Transient)).unwrap() {
            ClientAction::Retry { delay_ms } => delays.push(delay_ms),
            ClientAction::ReportDegraded => break,
            other => panic!("unexpected action {:?}", other),
        }
        assert_eq!(
            dm.handle_event(1, ClientEvent::ConnectRequested).unwrap(),
            ClientAction::Connect
        );
    }
    assert_eq!(delays, vec![100, 200, 400, 800]);
    assert!(dm.device_status(1).unwrap().degraded);
}

#[test]
fn events_for_an_unknown_device_are_refused() {
    let mut dm = DeviceManager::new();
    assert!(matches!(
        dm.handle_event(8, ClientEvent::ConnectRequested),
        Err(P4RuntimeError::DeviceNotFound { device_id: 8 })
    ));
}

#[test]
fn sync_of_an_unknown_device_is_refused() {
    let (mut dm, tm) = connected(&[1]);
    assert!(matches!(
        dm.sync_device(&tm, 2, vec![]),
        Err(P4RuntimeError::DeviceNotFound { device_id: 2 })
    ));
    // Known to the manager, unknown to the store.
    dm.add_device(device(3)).unwrap();
    assert!(matches!(
        dm.sync_device(&tm, 3, vec![]),
        Err(P4RuntimeError::DeviceNotFound { device_id: 3 })
    ));
}

#[test]
fn sync_of_a_malformed_set_is_refused() {
    let (mut dm, tm) = connected(&[1]);
    let twice = vec![entry(ip(10, 0, 0, 0), 24, 1, 1), entry(ip(10, 0, 0, 0), 24, 2, 1)];
    match dm.sync_device(&tm, 1, twice) {
        Err(P4RuntimeError::InvalidTableEntry(m)) => assert_eq!(m, MALFORMED_ENTRY_SET),
        other => panic!("expected an invalid entry, got {:?}", other),
    }
    assert!(!dm.is_syncing(1));
}

#[test]
fn sync_waits_for_the_connection() {
    let mut dm = DeviceManager::with_policy(policy());
    let mut tm = TableManager::new();
    dm.add_device(device(1)).unwrap();
    tm.initialize_device_tables(1);
    let before = dm.device_status(1);
    assert!(dm.sync_device(&tm, 1, vec![entry(ip(10, 0, 0, 0), 24, 1, 1)]).unwrap().is_none());
    assert_eq!(dm.device_status(1), before);
    assert!(!dm.is_syncing(1));
}

#[test]
fn first_sync_pushes_the_whole_table() {
    let (mut dm, tm) = connected(&[1]);
    let desired = vec![entry(ip(10, 0, 0, 0), 24, 1, 1), entry(ip(10, 0, 1, 0), 24, 2, 2)];
    let plan = dm.sync_device(&tm, 1, desired.clone()).unwrap().unwrap();
    assert_eq!(plan.device_id, 1);
    assert_eq!(plan.ticket, 0);
    assert_eq!(plan.desired, desired);
    assert_eq!(
        plan.operations,
        vec![TableOperation::Upsert(desired[0]), TableOperation::Upsert(desired[1])]
    );
    assert!(dm.is_syncing(1));
    assert_eq!(state_of(&dm, 1), ConnectionState::Connecting);
}

#[test]
fn successful_push_is_committed_and_the_next_sync_sends_nothing() {
    let (mut dm, mut tm) = connected(&[1]);
    let desired = vec![entry(ip(10, 0, 0, 0), 24, 1, 1), entry(ip(10, 0, 1, 0), 24, 2, 2)];
    let plan = dm.sync_device(&tm, 1, desired.clone()).unwrap().unwrap();
    let n = plan.operations.len();
    assert_eq!(dm.finish_sync(&mut tm, plan, &all_ok(n)), SyncReport::Committed { resync: false });
    assert_eq!(tm.get_ipv4_lpm_entries(1).unwrap(), desired);
    assert_eq!(state_of(&dm, 1), ConnectionState::Synced);
    assert!(!dm.is_syncing(1));
    // Unchanged desired set: no plan, hence no request.
    assert!(dm.sync_device(&tm, 1, desired.clone()).unwrap().is_none());
    assert!(!dm.is_syncing(1));
    assert_eq!(state_of(&dm, 1), ConnectionState::Synced);
}

#[test]
fn later_sync_pushes_the_difference_deletes_first() {
    let (mut dm, mut tm) = connected(&[1]);
    let a = entry(ip(10, 0, 0, 0), 24, 1, 1);
    let b = entry(ip(10, 0, 1, 0), 24, 2, 2);
    let c = entry(ip(10, 0, 2, 0), 24, 3, 3);
    let plan = dm.sync_device(&tm, 1, vec![a, b]).unwrap().unwrap();
    dm.finish_sync(&mut tm, plan, &all_ok(2));
    let b2 = entry(ip(10, 0, 1, 0), 24, 7, 2);
    let plan = dm.sync_device(&tm, 1, vec![b2, c]).unwrap().unwrap();
    assert_eq!(plan.ticket, 1);
    assert_eq!(
        plan.operations,
        vec![TableOperation::Delete(a.key), TableOperation::Upsert(b2), TableOperation::Upsert(c)]
    );
    assert_eq!(dm.finish_sync(&mut tm, plan, &all_ok(3)), SyncReport::Committed { resync: false });
    assert_eq!(tm.get_ipv4_lpm_entries(1).unwrap(), vec![b2, c]);
}

#[test]
fn a_device_that_holds_the_desired_set_counts_as_synced_without_a_push() {
    let (mut dm, tm) = connected(&[1]);
    assert_eq!(state_of(&dm, 1), ConnectionState::Connecting);
    assert!(dm.sync_device(&tm, 1, vec![]).unwrap().is_none());
    assert_eq!(state_of(&dm, 1), ConnectionState::Synced);
}

#[test]
fn failed_upsert_commits_nothing_of_its_batch() {
    let (mut dm, mut tm) = connected(&[1]);
    let a = entry(ip(10, 0, 0, 0), 24, 1, 1);
    let plan = dm.sync_device(&tm, 1, vec![a]).unwrap().unwrap();
    dm.finish_sync(&mut tm, plan, &all_ok(1));
    let b = entry(ip(10, 0, 1, 0), 24, 2, 2);
    let c = entry(ip(10, 0, 2, 0), 24, 3, 3);
    let d = entry(ip(10, 0, 3, 0), 24, 4, 4);
    let plan = dm.sync_device(&tm, 1, vec![b, c, d]).unwrap().unwrap();
    assert_eq!(plan.operations.len(), 4);
    // The delete and the first two writes were applied; the last write failed.
    let outcomes = vec![Ok(()), Ok(()), Ok(()), Err(unavailable())];
    assert_eq!(
        dm.finish_sync(&mut tm, plan, &outcomes),
        SyncReport::Failed {
            failure: FailureReport {
                device_id: 1,
                operation: OperationKind::Write,
                class: ErrorClass::Transient,
                action: ClientAction::Retry { delay_ms: 100 },
            }
        }
    );
    assert_eq!(tm.get_ipv4_lpm_entries(1).unwrap(), vec![a]);
    assert_eq!(state_of(&dm, 1), ConnectionState::Error);
    assert!(!dm.is_syncing(1));
}

#[test]
fn rejected_entry_degrades_the_device() {
    let (mut dm, mut tm) = connected(&[1]);
    let plan = dm.sync_device(&tm, 1, vec![entry(ip(10, 0, 0, 0), 24, 1, 1)]).unwrap().unwrap();
    match dm.finish_sync(&mut tm, plan, &vec![Err(rejected())]) {
        SyncReport::Failed { failure } => {
            assert_eq!(failure.class, ErrorClass::Permanent);
            assert_eq!(failure.action, ClientAction::ReportDegraded);
            assert_eq!(failure.device_id, 1);
        }
        other => panic!("expected a failure, got {:?}", other),
    }
    assert!(dm.device_status(1).unwrap().degraded);
    assert!(tm.get_ipv4_lpm_entries(1).unwrap().is_empty());
}

#[test]
fn after_a_failure_the_same_difference_is_pushed_again() {
    let (mut dm, mut tm) = connected(&[1]);
    let desired = vec![entry(ip(10, 0, 0, 0), 24, 1, 1), entry(ip(10, 0, 1, 0), 24, 2, 2)];
    let first = dm.sync_device(&tm, 1, desired.clone()).unwrap().unwrap();
    let operations = first.operations.clone();
    dm.finish_sync(&mut tm, first, &vec![Ok(()), Err(unavailable())]);
    // Not connected: nothing is sent until the connection stands again.
    assert!(dm.sync_device(&tm, 1, desired.clone()).unwrap().is_none());
    assert_eq!(dm.handle_event(1, ClientEvent::ConnectRequested).unwrap(), ClientAction::Connect);
    assert_eq!(dm.handle_event(1, ClientEvent::ConnectSucceeded).unwrap(), ClientAction::Push);
    let again = dm.sync_device(&tm, 1, desired.clone()).unwrap().unwrap();
    assert_eq!(again.operations, operations);
    assert_eq!(again.ticket, 1);
    assert_eq!(dm.finish_sync(&mut tm, again, &all_ok(2)), SyncReport::Committed { resync: false });
    assert_eq!(tm.get_ipv4_lpm_entries(1).unwrap(), desired);
}

#[test]
fn failure_of_one_device_leaves_the_other_alone() {
    let (mut dm, mut tm) = connected(&[1, 2]);
    let desired = vec![entry(ip(10, 0, 0, 0), 24, 1, 1), entry(ip(10, 0, 1, 0), 24, 2, 2)];
    let mut plans = dm.sync_all(&tm, &desired).unwrap();
    plans.sort_by_key(|p| p.device_id);
    assert_eq!(plans.len(), 2);
    let plan_b = plans.pop().unwrap();
    let plan_a = plans.pop().unwrap();
    assert_eq!((plan_a.device_id, plan_b.device_id), (1, 2));
    let original = plan_a.operations.clone();
    assert!(matches!(
        dm.finish_sync(&mut tm, plan_a, &vec![Err(unavailable())]),
        SyncReport::Failed { .. }
    ));
    assert_eq!(
        dm.finish_sync(&mut tm, plan_b, &all_ok(2)),
        SyncReport::Committed { resync: false }
    );
    assert_eq!(tm.get_ipv4_lpm_entries(2).unwrap(), desired);
    assert!(tm.get_ipv4_lpm_entries(1).unwrap().is_empty());
    assert_eq!(state_of(&dm, 2), ConnectionState::Synced);
    assert_eq!(state_of(&dm, 1), ConnectionState::Error);
    // The next round touches the failed device only, with the same requests.
    dm.handle_event(1, ClientEvent::ConnectRequested).unwrap();
    dm.handle_event(1, ClientEvent::ConnectSucceeded).unwrap();
    let plans = dm.sync_all(&tm, &desired).unwrap();
    assert_eq!(plans.len(), 1);
    assert_eq!(plans[0].device_id, 1);
    assert_eq!(plans[0].operations, original);
}

#[test]
fn requests_during_a_push_are_folded_into_one_resync() {
    let (mut dm, mut tm) = connected(&[1]);
    let a = entry(ip(10, 0, 0, 0), 24, 1, 1);
    let b = entry(ip(10, 0, 1, 0), 24, 2, 2);
    let c = entry(ip(10, 0, 2, 0), 24, 3, 3);
    let plan = dm.sync_device(&tm, 1, vec![a]).unwrap().unwrap();
    assert!(dm.sync_device(&tm, 1, vec![a, b]).unwrap().is_none());
    assert!(dm.sync_device(&tm, 1, vec![a, b, c]).unwrap().is_none());
    assert_eq!(dm.finish_sync(&mut tm, plan, &all_ok(1)), SyncReport::Committed { resync: true });
    assert_eq!(tm.get_ipv4_lpm_entries(1).unwrap(), vec![a]);
    // The latest desired set wins.
    let next = dm.sync_device(&tm, 1, vec![a, b, c]).unwrap().unwrap();
    assert_eq!(next.operations, vec![TableOperation::Upsert(b), TableOperation::Upsert(c)]);
    assert_eq!(dm.finish_sync(&mut tm, next, &all_ok(2)), SyncReport::Committed { resync: false });
}

#[test]
fn a_plan_that_is_not_under_way_changes_nothing() {
    let (mut dm, mut tm) = connected(&[1]);
    let a = entry(ip(10, 0, 0, 0), 24, 1, 1);
    let plan = dm.sync_device(&tm, 1, vec![a]).unwrap().unwrap();
    let forged = SyncPlan {
        device_id: 1,
        ticket: plan.ticket + 5,
        operations: vec![],
        desired: vec![entry(ip(10, 9, 9, 0), 24, 1, 1)],
    };
    assert_eq!(dm.finish_sync(&mut tm, forged, &vec![]), SyncReport::Stale);
    let unknown = SyncPlan { device_id: 44, ticket: 0, operations: vec![], desired: vec![] };
    assert_eq!(dm.finish_sync(&mut tm, unknown, &vec![]), SyncReport::Stale);
    assert!(tm.get_ipv4_lpm_entries(1).unwrap().is_empty());
    assert!(dm.is_syncing(1));
    let copy = SyncPlan {
        device_id: plan.device_id,
        ticket: plan.ticket,
        operations: plan.operations.clone(),
        desired: plan.desired.clone(),
    };
    assert_eq!(dm.finish_sync(&mut tm, plan, &all_ok(1)), SyncReport::Committed { resync: false });
    // Reported twice: the second report is stale.
    assert_eq!(dm.finish_sync(&mut tm, copy, &vec![Err(unavailable())]), SyncReport::Stale);
    assert_eq!(tm.get_ipv4_lpm_entries(1).unwrap(), vec![a]);
    assert_eq!(state_of(&dm, 1), ConnectionState::Synced);
}

#[test]
fn a_plan_with_a_malformed_desired_set_is_not_committed() {
    let (mut dm, mut tm) = connected(&[1]);
    let a = entry(ip(10, 0, 0, 0), 24, 1, 1);
    let plan = dm.sync_device(&tm, 1, vec![a]).unwrap().unwrap();
    let tampered = SyncPlan {
        device_id: 1,
        ticket: plan.ticket,
        operations: plan.operations.clone(),
        desired: vec![a, a],
    };
    match dm.finish_sync(&mut tm, tampered, &all_ok(1)) {
        SyncReport::Failed { failure } => assert_eq!(failure.class, ErrorClass::Permanent),
        other => panic!("expected a failure, got {:?}", other),
    }
    assert!(tm.get_ipv4_lpm_entries(1).unwrap().is_empty());
}

#[test]
fn sync_all_refuses_a_malformed_set_before_any_device() {
    let (mut dm, tm) = connected(&[1, 2]);
    let twice = vec![entry(ip(10, 0, 0, 0), 24, 1, 1), entry(ip(10, 0, 0, 0), 24, 2, 1)];
    assert!(matches!(dm.sync_all(&tm, &twice), Err(P4RuntimeError::InvalidTableEntry(_))));
    assert!(!dm.is_syncing(1));
    assert!(!dm.is_syncing(2));
}

#[test]
fn sync_all_passes_over_devices_that_cannot_be_pushed_to() {
    let (mut dm, mut tm) = connected(&[1, 2]);
    // Device 3 is registered and not connected; device 4 is unknown to the store.
    dm.add_device(device(3)).unwrap();
    tm.initialize_device_tables(3);
    dm.add_device(device(4)).unwrap();
    dm.handle_event(4, ClientEvent::ConnectSucceeded).unwrap();
    let desired = vec![entry(ip(10, 0, 0, 0), 24, 1, 1)];
    let plans = dm.sync_all(&tm, &desired).unwrap();
    let mut ids: Vec<u64> = plans.iter().map(|p| p.device_id).collect();
    ids.sort();
    assert_eq!(ids, vec![1, 2]);
}

#[test]
fn tickets_survive_a_device_being_added_again() {
    let (mut dm, mut tm) = connected(&[1]);
    let a = entry(ip(10, 0, 0, 0), 24, 1, 1);
    let old = dm.sync_device(&tm, 1, vec![a]).unwrap().unwrap();
    assert_eq!(old.ticket, 0);
    dm.add_device(device(1)).unwrap();
    tm.initialize_device_tables(1);
    dm.handle_event(1, ClientEvent::ConnectSucceeded).unwrap();
    let new = dm.sync_device(&tm, 1, vec![a]).unwrap().unwrap();
    assert_eq!(new.ticket, 1);
    assert_eq!(dm.finish_sync(&mut tm, old, &all_ok(1)), SyncReport::Stale);
    assert_eq!(dm.finish_sync(&mut tm, new, &all_ok(1)), SyncReport::Committed { resync: false });
}

#[test]
fn writes_are_listed_for_known_devices_only() {
    let (dm, _tm) = connected(&[1, 2]);
    let a = entry(ip(10, 0, 0, 0), 24, 1, 1);
    let b = entry(ip(10, 0, 1, 0), 24, 1, 1);
    assert_eq!(
        dm.write_table_entries_to_device(1, &vec![a, b]).unwrap(),
        vec![TableOperation::Upsert(a), TableOperation::Upsert(b)]
    );
    assert!(matches!(
        dm.write_table_entries_to_device(3, &vec![a]),
        Err(P4RuntimeError::DeviceNotFound { device_id: 3 })
    ));
    let mut all = dm.write_table_entries_to_all_devices(&vec![a]);
    all.sort_by_key(|p| p.0);
    assert_eq!(
        all,
        vec![(1, vec![TableOperation::Upsert(a)]), (2, vec![TableOperation::Upsert(a)])]
    );
}

fn stats(packets: u64) -> Statistics {
    let mut s = Statistics::default();
    s.packets_processed = packets;
    s.bytes_processed = packets * 64;
    s
}

#[test]
fn statistics_are_kept_for_known_devices_that_answered() {
    let (dm, _tm) = connected(&[1, 2, 3]);
    let replies = vec![
        (1, Ok(stats(10))),
        (2, Err(unavailable())),
        (9, Ok(stats(90))),
        (3, Ok(stats(30))),
        (1, Ok(stats(11))),
        (3, Err(rejected())),
    ];
    let failures = dm.statistics_failures(&replies);
    assert_eq!(
        failures,
        vec![
            FailureReport {
                device_id: 2,
                operation: OperationKind::GetStatistics,
                class: ErrorClass::Transient,
                action: ClientAction::Nothing,
            },
            FailureReport {
                device_id: 3,
                operation: OperationKind::GetStatistics,
                class: ErrorClass::Permanent,
                action: ClientAction::Nothing,
            },
        ]
    );
    let got = dm.get_all_device_statistics(replies);
    assert_eq!(got.len(), 2);
    assert_eq!(got[&1].packets_processed, 11);
    assert_eq!(got[&1].bytes_processed, 704);
    assert_eq!(got[&3].packets_processed, 30);
    assert!(!got.contains_key(&2));
    assert!(!got.contains_key(&9));
}

#[test]
fn statistics_of_one_device_pass_through() {
    let (dm, _tm) = connected(&[1]);
    assert_eq!(dm.get_device_statistics(1, Ok(stats(5))).unwrap().packets_processed, 5);
    assert!(matches!(
        dm.get_device_statistics(1, Err(unavailable())),
        Err(P4RuntimeError::GrpcError { code: 14, .. })
    ));
    assert!(matches!(
        dm.get_device_statistics(2, Ok(stats(5))),
        Err(P4RuntimeError::DeviceNotFound { device_id: 2 })
    ));
}

fn device_at(device_id: u64, endpoint: &str) -> DeviceInfo {
    DeviceInfo {
        device_id,
        name: "switch".to_string(),
        grpc_endpoint: endpoint.to_string(),
        p4info: None,
    }
}

fn refused(r: Result<ClientAction, P4RuntimeError>) {
    match r {
        Err(P4RuntimeError::GrpcError { code, message }) => {
            assert_eq!(code, 3);
            assert_eq!(message, "Invalid endpoint URI");
        }
        other => panic!("expected a refusal, got {:?}", other),
    }
}

#[test]
fn a_device_with_an_endpoint_that_is_no_uri_is_refused() {
    let mut dm = DeviceManager::new();
    refused(dm.add_device(device_at(1, "")));
    refused(dm.add_device(device_at(1, "http://exa mple.com")));
    refused(dm.add_device(device_at(1, "http://[::1")));
    refused(dm.add_device(device_at(1, "\u{0}")));
    assert!(dm.device_ids().is_empty());
    assert_eq!(dm.device_status(1), None);
}

#[test]
fn a_device_with_a_uri_as_endpoint_is_registered() {
    let mut dm = DeviceManager::new();
    for (id, endpoint) in [
        (1u64, "http://127.0.0.1:50051"),
        (2, "https://switch.example.com"),
        (3, "http://[::1]:9559"),
        (4, "localhost:9559"),
    ] {
        assert_eq!(dm.add_device(device_at(id, endpoint)).unwrap(), ClientAction::Connect);
    }
    let mut ids = dm.device_ids();
    ids.sort();
    assert_eq!(ids, vec![1, 2, 3, 4]);
}

#[test]
fn a_refused_device_does_not_replace_a_registered_one() {
    let mut dm = DeviceManager::new();
    dm.add_device(device_at(1, "http://127.0.0.1:50051")).unwrap();
    dm.handle_event(1, ClientEvent::ConnectSucceeded).unwrap();
    let before = dm.device_status(1);
    refused(dm.add_device(device_at(1, "")));
    assert_eq!(dm.device_status(1), before);
    assert_eq!(dm.list_devices()[0].grpc_endpoint, "http://127.0.0.1:50051");
}

#[test]
fn registration_follows_the_verdict_on_the_endpoint() {
    let mut dm = DeviceManager::new();
    refused(dm.register_device(device_at(1, "http://127.0.0.1:50051"), false));
    assert!(dm.device_ids().is_empty());
    assert_eq!(dm.register_device(device_at(1, ""), true).unwrap(), ClientAction::Connect);
    assert_eq!(dm.device_ids(), vec![1]);
    assert_eq!(state_of(&dm, 1), ConnectionState::Connecting);
}

/// Connects a device again after a failure.
fn reconnect(dm: &mut DeviceManager, id: u64) {
    assert_eq!(dm.handle_event(id, ClientEvent::ConnectRequested).unwrap(), ClientAction::Connect);
    assert_eq!(dm.handle_event(id, ClientEvent::ConnectSucceeded).unwrap(), ClientAction::Push);
}

#[test]
fn keys_of_a_failed_push_are_dropped_when_no_longer_desired() {
    let (mut dm, mut tm) = connected(&[1]);
    let a = entry(ip(10, 0, 0, 0), 24, 1, 1);
    let b = entry(ip(10, 0, 1, 0), 24, 2, 2);
    let c = entry(ip(10, 0, 2, 0), 24, 3, 3);
    let plan = dm.sync_device(&tm, 1, vec![a, b]).unwrap().unwrap();
    // The device may have written `a` before `b` failed.
    dm.finish_sync(&mut tm, plan, &vec![Ok(()), Err(unavailable())]);
    reconnect(&mut dm, 1);
    let plan = dm.sync_device(&tm, 1, vec![c]).unwrap().unwrap();
    assert_eq!(
        plan.operations,
        vec![
            TableOperation::Delete(a.key),
            TableOperation::Delete(b.key),
            TableOperation::Upsert(c),
        ]
    );
    assert_eq!(dm.finish_sync(&mut tm, plan, &all_ok(3)), SyncReport::Committed { resync: false });
    assert_eq!(tm.get_ipv4_lpm_entries(1).unwrap(), vec![c]);
    // Nothing is unsettled any more.
    assert!(dm.sync_device(&tm, 1, vec![c]).unwrap().is_none());
    let plan = dm.sync_device(&tm, 1, vec![]).unwrap().unwrap();
    assert_eq!(plan.operations, vec![TableOperation::Delete(c.key)]);
}

#[test]
fn keys_of_a_failed_push_are_written_again_even_if_the_store_holds_them() {
    let (mut dm, mut tm) = connected(&[1]);
    let a = entry(ip(10, 0, 0, 0), 24, 1, 1);
    let b = entry(ip(10, 0, 1, 0), 24, 2, 2);
    let plan = dm.sync_device(&tm, 1, vec![a, b]).unwrap().unwrap();
    dm.finish_sync(&mut tm, plan, &all_ok(2));
    // A push that drops `a` fails; the device may or may not have dropped it.
    let plan = dm.sync_device(&tm, 1, vec![b]).unwrap().unwrap();
    assert_eq!(plan.operations, vec![TableOperation::Delete(a.key)]);
    dm.finish_sync(&mut tm, plan, &vec![Err(unavailable())]);
    assert_eq!(tm.get_ipv4_lpm_entries(1).unwrap(), vec![a, b]);
    reconnect(&mut dm, 1);
    // `a` is desired again: the store holds it, the device perhaps not.
    let plan = dm.sync_device(&tm, 1, vec![a, b]).unwrap().unwrap();
    assert_eq!(plan.operations, vec![TableOperation::Upsert(a)]);
    assert_eq!(dm.finish_sync(&mut tm, plan, &all_ok(1)), SyncReport::Committed { resync: false });
    assert!(dm.sync_device(&tm, 1, vec![a, b]).unwrap().is_none());
}

#[test]
fn unsettled_keys_add_up_over_failures_and_are_listed_once() {
    let (mut dm, mut tm) = connected(&[1]);
    let a = entry(ip(10, 0, 0, 0), 24, 1, 1);
    let b = entry(ip(10, 0, 1, 0), 24, 2, 2);
    let c = entry(ip(10, 0, 2, 0), 24, 3, 3);
    let plan = dm.sync_device(&tm, 1, vec![a, b]).unwrap().unwrap();
    dm.finish_sync(&mut tm, plan, &vec![Err(unavailable())]);
    reconnect(&mut dm, 1);
    let plan = dm.sync_device(&tm, 1, vec![b, c]).unwrap().unwrap();
    assert_eq!(
        plan.operations,
        vec![TableOperation::Delete(a.key), TableOperation::Upsert(b), TableOperation::Upsert(c)]
    );
    dm.finish_sync(&mut tm, plan, &vec![Ok(()), Ok(()), Err(unavailable())]);
    reconnect(&mut dm, 1);
    let plan = dm.sync_device(&tm, 1, vec![]).unwrap().unwrap();
    assert_eq!(
        plan.operations,
        vec![
            TableOperation::Delete(a.key),
            TableOperation::Delete(b.key),
            TableOperation::Delete(c.key),
        ]
    );
    assert_eq!(dm.finish_sync(&mut tm, plan, &all_ok(3)), SyncReport::Committed { resync: false });
    assert!(dm.sync_device(&tm, 1, vec![]).unwrap().is_none());
}

#[test]
fn a_device_that_is_registered_again_has_no_unsettled_key() {
    let (mut dm, mut tm) = connected(&[1]);
    let a = entry(ip(10, 0, 0, 0), 24, 1, 1);
    let plan = dm.sync_device(&tm, 1, vec![a]).unwrap().unwrap();
    dm.finish_sync(&mut tm, plan, &vec![Err(unavailable())]);
    dm.add_device(device(1)).unwrap();
    tm.initialize_device_tables(1);
    dm.handle_event(1, ClientEvent::ConnectSucceeded).unwrap();
    assert!(dm.sync_device(&tm, 1, vec![]).unwrap().is_none());
}
