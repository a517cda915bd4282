use p4_controller::entries::{
    best_entry, check_entries, find_entry, holds_entry, MALFORMED_ENTRY_SET,
};
use p4_controller::lpm::PREFIX_LENGTH_OUT_OF_RANGE;
use p4_controller::table_manager::{
    TableEntryBuilder, TableManager, IPV4_LPM, MISSING_ACTION, MISSING_PREFIX,
    MISSING_PREFIX_LENGTH,
};
use p4_controller::types::{
    Ipv4Address, MacAddress, P4RuntimeError, TableAction, TableEntry, TableKey,
};

fn ip(a: u8, b: u8, c: u8, d: u8) -> Ipv4Address {
    Ipv4Address::from_octets([a, b, c, d])
}

fn forward(port: u32) -> TableAction {
    TableAction::Ipv4Forward { dst_mac: MacAddress::new([2, 0, 0, 0, 0, port as u8]), port }
}

fn entry(prefix: Ipv4Address, prefix_len: u8, port: u32, priority: u32) -> TableEntry {
    TableEntry { key: TableKey { ipv4_dst: prefix, prefix_len }, action: forward(port), priority }
}

fn not_found(r: Result<(), P4RuntimeError>, device_id: u64) {
    match r {
        Err(P4RuntimeError::DeviceNotFound { device_id: d }) => assert_eq!(d, device_id),
        other => panic!("expected DeviceNotFound, got {:?}", other),
    }
}

#[test]
fn unknown_device_is_reported_by_every_operation() {
    let mut tm = TableManager::new();
    not_found(tm.add_ipv4_lpm_entry(7, ip(10, 0, 0, 0), 24, TableAction::Drop, 1), 7);
    not_found(tm.remove_ipv4_lpm_entry(7, ip(10, 0, 0, 0), 24), 7);
    not_found(tm.clear_device_tables(7), 7);
    not_found(tm.commit(7, vec![]), 7);
    assert!(matches!(
        tm.get_ipv4_lpm_entries(7),
        Err(P4RuntimeError::DeviceNotFound { device_id: 7 })
    ));
    assert!(matches!(
        tm.find_lpm_entry(7, ip(10, 0, 0, 1)),
        Err(P4RuntimeError::DeviceNotFound { device_id: 7 })
    ));
    assert!(matches!(tm.diff(7, &vec![]), Err(P4RuntimeError::DeviceNotFound { device_id: 7 })));
    assert!(matches!(
        tm.get_all_device_entries(7),
        Err(P4RuntimeError::DeviceNotFound { device_id: 7 })
    ));
    assert!(matches!(
        tm.get_table_statistics(7),
        Err(P4RuntimeError::DeviceNotFound { device_id: 7 })
    ));
}

#[test]
fn a_new_device_has_no_table() {
    let mut tm = TableManager::new();
    tm.initialize_device_tables(1);
    assert_eq!(tm.get_ipv4_lpm_entries(1).unwrap(), vec![]);
    assert!(tm.get_all_device_entries(1).unwrap().is_empty());
    assert!(tm.get_table_statistics(1).unwrap().is_empty());
    assert!(tm.get_all_ipv4_lpm_entries().is_empty());
}

#[test]
fn entries_are_written_by_key() {
    let mut tm = TableManager::new();
    tm.initialize_device_tables(1);
    tm.add_ipv4_lpm_entry(1, ip(10, 0, 0, 0), 24, forward(1), 5).unwrap();
    tm.add_ipv4_lpm_entry(1, ip(10, 0, 1, 0), 24, forward(2), 6).unwrap();
    // The same key again replaces the entry where it stands.
    tm.add_ipv4_lpm_entry(1, ip(10, 0, 0, 0), 24, forward(3), 9).unwrap();
    assert_eq!(
        tm.get_ipv4_lpm_entries(1).unwrap(),
        vec![entry(ip(10, 0, 0, 0), 24, 3, 9), entry(ip(10, 0, 1, 0), 24, 2, 6)]
    );
    let tables = tm.get_all_device_entries(1).unwrap();
    assert_eq!(tables.len(), 1);
    assert_eq!(tables[0].name, IPV4_LPM);
    assert_eq!(tables[0].name, "ipv4_lpm");
    assert_eq!(tables[0].entries.len(), 2);
    assert_eq!(tm.get_table_statistics(1).unwrap(), vec![("ipv4_lpm".to_string(), 2usize)]);
}

#[test]
fn an_entry_with_a_prefix_length_above_32_is_rejected() {
    let mut tm = TableManager::new();
    tm.initialize_device_tables(1);
    match tm.add_ipv4_lpm_entry(1, ip(10, 0, 0, 0), 33, TableAction::Drop, 1) {
        Err(P4RuntimeError::InvalidTableEntry(m)) => assert_eq!(m, PREFIX_LENGTH_OUT_OF_RANGE),
        other => panic!("expected an invalid entry, got {:?}", other),
    }
    assert!(tm.get_ipv4_lpm_entries(1).unwrap().is_empty());
    assert!(tm.add_ipv4_lpm_entry(1, ip(10, 0, 0, 0), 32, TableAction::Drop, 1).is_ok());
}

#[test]
fn entries_are_removed_by_key() {
    let mut tm = TableManager::new();
    tm.initialize_device_tables(1);
    tm.add_ipv4_lpm_entry(1, ip(10, 0, 0, 0), 24, forward(1), 5).unwrap();
    tm.add_ipv4_lpm_entry(1, ip(10, 0, 1, 0), 24, forward(2), 6).unwrap();
    tm.add_ipv4_lpm_entry(1, ip(10, 0, 2, 0), 24, forward(3), 7).unwrap();
    tm.remove_ipv4_lpm_entry(1, ip(10, 0, 1, 0), 24).unwrap();
    assert_eq!(
        tm.get_ipv4_lpm_entries(1).unwrap(),
        vec![entry(ip(10, 0, 0, 0), 24, 1, 5), entry(ip(10, 0, 2, 0), 24, 3, 7)]
    );
    // An absent key is no error.
    tm.remove_ipv4_lpm_entry(1, ip(10, 0, 1, 0), 24).unwrap();
    tm.remove_ipv4_lpm_entry(1, ip(10, 0, 0, 0), 25).unwrap();
    assert_eq!(tm.get_ipv4_lpm_entries(1).unwrap().len(), 2);
}

#[test]
fn removing_from_a_device_without_table_creates_none() {
    let mut tm = TableManager::new();
    tm.initialize_device_tables(1);
    tm.remove_ipv4_lpm_entry(1, ip(10, 0, 0, 0), 24).unwrap();
    assert!(tm.get_all_device_entries(1).unwrap().is_empty());
}

#[test]
fn devices_are_kept_apart() {
    let mut tm = TableManager::new();
    tm.initialize_device_tables(1);
    tm.initialize_device_tables(2);
    tm.initialize_device_tables(3);
    tm.add_ipv4_lpm_entry(1, ip(10, 0, 0, 0), 24, forward(1), 5).unwrap();
    tm.add_ipv4_lpm_entry(2, ip(10, 9, 0, 0), 16, forward(2), 6).unwrap();
    assert_eq!(tm.get_ipv4_lpm_entries(1).unwrap(), vec![entry(ip(10, 0, 0, 0), 24, 1, 5)]);
    assert_eq!(tm.get_ipv4_lpm_entries(2).unwrap(), vec![entry(ip(10, 9, 0, 0), 16, 2, 6)]);
    let all = tm.get_all_ipv4_lpm_entries();
    assert_eq!(all.len(), 2);
    assert_eq!(all[&1], vec![entry(ip(10, 0, 0, 0), 24, 1, 5)]);
    assert_eq!(all[&2], vec![entry(ip(10, 9, 0, 0), 16, 2, 6)]);
    assert!(!all.contains_key(&3));
    tm.clear_device_tables(1).unwrap();
    assert!(tm.get_ipv4_lpm_entries(1).unwrap().is_empty());
    assert_eq!(tm.get_ipv4_lpm_entries(2).unwrap().len(), 1);
    tm.remove_device(2);
    assert!(tm.get_ipv4_lpm_entries(2).is_err());
    assert!(tm.get_ipv4_lpm_entries(1).is_ok());
    // Forgetting an unknown device is no error.
    tm.remove_device(99);
}

#[test]
fn initializing_a_known_device_drops_its_tables() {
    let mut tm = TableManager::new();
    tm.initialize_device_tables(1);
    tm.add_ipv4_lpm_entry(1, ip(10, 0, 0, 0), 24, forward(1), 5).unwrap();
    tm.initialize_device_tables(1);
    assert!(tm.get_ipv4_lpm_entries(1).unwrap().is_empty());
}

#[test]
fn table_names_can_be_registered_again() {
    let mut tm = TableManager::new();
    tm.register_table_name("ipv4_lpm", "MyIngress.ipv4_lpm");
    tm.register_table_name("acl", "MyIngress.acl");
    tm.register_table_name("ipv4_lpm", "Ingress.lpm");
    tm.initialize_device_tables(1);
    assert!(tm.get_ipv4_lpm_entries(1).unwrap().is_empty());
}

#[test]
fn device_lookup_prefers_longest_prefix_then_lowest_priority_then_latest() {
    let mut tm = TableManager::new();
    tm.initialize_device_tables(1);
    assert_eq!(tm.find_lpm_entry(1, ip(10, 0, 0, 1)).unwrap(), None);
    tm.add_ipv4_lpm_entry(1, ip(0, 0, 0, 0), 0, forward(1), 1).unwrap();
    tm.add_ipv4_lpm_entry(1, ip(10, 0, 0, 0), 24, forward(2), 1).unwrap();
    assert_eq!(tm.find_lpm_entry(1, ip(10, 0, 0, 5)).unwrap().unwrap().key.prefix_len, 24);
    assert_eq!(tm.find_lpm_entry(1, ip(192, 0, 2, 1)).unwrap().unwrap().key.prefix_len, 0);
    // Three keys that name the same /24 network.
    tm.add_ipv4_lpm_entry(1, ip(10, 0, 0, 7), 24, forward(3), 0).unwrap();
    tm.add_ipv4_lpm_entry(1, ip(10, 0, 0, 8), 24, forward(4), 0).unwrap();
    let hit = tm.find_lpm_entry(1, ip(10, 0, 0, 5)).unwrap().unwrap();
    assert_eq!(hit.key.ipv4_dst, ip(10, 0, 0, 8));
    assert_eq!(hit.action, forward(4));
}

#[test]
fn best_entry_agrees_with_the_routing_table_rule() {
    let entries = vec![
        entry(ip(10, 0, 0, 0), 8, 1, 0),
        entry(ip(10, 1, 0, 0), 16, 2, 9),
        entry(ip(10, 1, 0, 1), 16, 3, 4),
        entry(ip(10, 1, 0, 2), 16, 4, 4),
        entry(ip(10, 1, 0, 3), 16, 5, 6),
    ];
    assert_eq!(best_entry(&entries, ip(10, 1, 2, 3)), Some(entries[3]));
    assert_eq!(best_entry(&entries, ip(10, 2, 2, 3)), Some(entries[0]));
    assert_eq!(best_entry(&entries, ip(11, 2, 2, 3)), None);
    assert_eq!(best_entry(&vec![], ip(11, 2, 2, 3)), None);
    // A prefix length above 32 covers nothing.
    assert_eq!(best_entry(&vec![entry(ip(10, 0, 0, 0), 40, 1, 0)], ip(10, 0, 0, 0)), None);
}

#[test]
fn helpers_find_entries_by_key_and_by_content() {
    let entries = vec![entry(ip(10, 0, 0, 0), 24, 1, 5), entry(ip(10, 0, 1, 0), 24, 2, 6)];
    assert_eq!(
        find_entry(&entries, TableKey { ipv4_dst: ip(10, 0, 1, 0), prefix_len: 24 }),
        Some(1)
    );
    assert_eq!(find_entry(&entries, TableKey { ipv4_dst: ip(10, 0, 1, 0), prefix_len: 25 }), None);
    assert!(holds_entry(&entries, entry(ip(10, 0, 0, 0), 24, 1, 5)));
    assert!(!holds_entry(&entries, entry(ip(10, 0, 0, 0), 24, 1, 6)));
    assert!(!holds_entry(&entries, entry(ip(10, 0, 0, 0), 24, 2, 5)));
}

#[test]
fn well_formed_sets_have_valid_lengths_and_no_key_twice() {
    assert!(check_entries(&vec![]));
    assert!(
        check_entries(&vec![entry(ip(10, 0, 0, 0), 24, 1, 5), entry(ip(10, 0, 0, 0), 25, 1, 5)])
    );
    assert!(
        !check_entries(&vec![entry(ip(10, 0, 0, 0), 24, 1, 5), entry(ip(10, 0, 0, 0), 24, 2, 6)])
    );
    assert!(!check_entries(&vec![entry(ip(10, 0, 0, 0), 33, 1, 5)]));
    assert!(!check_entries(&vec![
        entry(ip(10, 0, 0, 0), 24, 1, 5),
        entry(ip(10, 0, 1, 0), 24, 1, 5),
        entry(ip(10, 0, 2, 0), 24, 1, 5),
        entry(ip(10, 0, 0, 0), 24, 1, 5),
    ]));
}

#[test]
fn diff_against_an_empty_table_is_the_whole_desired_set() {
    let mut tm = TableManager::new();
    tm.initialize_device_tables(1);
    let desired = vec![entry(ip(10, 0, 0, 0), 24, 1, 5), entry(ip(10, 0, 1, 0), 24, 2, 6)];
    let (upserts, deletes) = tm.diff(1, &desired).unwrap();
    assert_eq!(upserts, desired);
    assert!(deletes.is_empty());
}

#[test]
fn diff_lists_changed_and_new_entries_and_vanished_keys() {
    let mut tm = TableManager::new();
    tm.initialize_device_tables(1);
    let a = entry(ip(10, 0, 0, 0), 24, 1, 5);
    let b = entry(ip(10, 0, 1, 0), 24, 2, 6);
    let c = entry(ip(10, 0, 2, 0), 24, 3, 7);
    let d = entry(ip(10, 0, 3, 0), 24, 4, 8);
    tm.commit(1, vec![a, b, c]).unwrap();
    // b changes its port, c vanishes, d is new, a stays.
    let b2 = entry(ip(10, 0, 1, 0), 24, 9, 6);
    let (upserts, deletes) = tm.diff(1, &vec![d, a, b2]).unwrap();
    assert_eq!(upserts, vec![d, b2]);
    assert_eq!(deletes, vec![c.key]);
    // A change of priority alone is a change.
    let a2 = entry(ip(10, 0, 0, 0), 24, 1, 6);
    let (upserts, deletes) = tm.diff(1, &vec![a2, b, c]).unwrap();
    assert_eq!(upserts, vec![a2]);
    assert!(deletes.is_empty());
    // An empty desired set drops every key, in table order.
    let (upserts, deletes) = tm.diff(1, &vec![]).unwrap();
    assert!(upserts.is_empty());
    assert_eq!(deletes, vec![a.key, b.key, c.key]);
    // The store itself is not touched by a diff.
    assert_eq!(tm.get_ipv4_lpm_entries(1).unwrap(), vec![a, b, c]);
}

#[test]
fn diff_is_empty_after_commit() {
    let mut tm = TableManager::new();
    tm.initialize_device_tables(1);
    let desired = vec![
        entry(ip(10, 0, 0, 0), 24, 1, 5),
        entry(ip(10, 0, 1, 0), 24, 2, 6),
        entry(ip(0, 0, 0, 0), 0, 1, 1),
    ];
    tm.commit(1, desired.clone()).unwrap();
    assert_eq!(tm.get_ipv4_lpm_entries(1).unwrap(), desired);
    let (upserts, deletes) = tm.diff(1, &desired).unwrap();
    assert!(upserts.is_empty());
    assert!(deletes.is_empty());
    // The order of the desired set does not matter to the diff.
    let mut shuffled = desired.clone();
    shuffled.reverse();
    let (upserts, deletes) = tm.diff(1, &shuffled).unwrap();
    assert!(upserts.is_empty());
    assert!(deletes.is_empty());
}

#[test]
fn commit_replaces_the_table_wholesale() {
    let mut tm = TableManager::new();
    tm.initialize_device_tables(1);
    tm.initialize_device_tables(2);
    tm.commit(1, vec![entry(ip(10, 0, 0, 0), 24, 1, 5)]).unwrap();
    tm.commit(2, vec![entry(ip(10, 9, 0, 0), 24, 1, 5)]).unwrap();
    tm.commit(1, vec![entry(ip(10, 0, 7, 0), 24, 2, 6), entry(ip(10, 0, 8, 0), 24, 2, 6)]).unwrap();
    assert_eq!(
        tm.get_ipv4_lpm_entries(1).unwrap(),
        vec![entry(ip(10, 0, 7, 0), 24, 2, 6), entry(ip(10, 0, 8, 0), 24, 2, 6)]
    );
    assert_eq!(tm.get_ipv4_lpm_entries(2).unwrap(), vec![entry(ip(10, 9, 0, 0), 24, 1, 5)]);
    tm.commit(1, vec![]).unwrap();
    assert!(tm.get_ipv4_lpm_entries(1).unwrap().is_empty());
}

#[test]
fn commit_rejects_a_malformed_set_and_keeps_the_table() {
    let mut tm = TableManager::new();
    tm.initialize_device_tables(1);
    let kept = vec![entry(ip(10, 0, 0, 0), 24, 1, 5)];
    tm.commit(1, kept.clone()).unwrap();
    let twice = vec![entry(ip(10, 1, 0, 0), 24, 1, 5), entry(ip(10, 1, 0, 0), 24, 2, 5)];
    match tm.commit(1, twice) {
        Err(P4RuntimeError::InvalidTableEntry(m)) => assert_eq!(m, MALFORMED_ENTRY_SET),
        other => panic!("expected an invalid entry, got {:?}", other),
    }
    assert!(tm.commit(1, vec![entry(ip(10, 1, 0, 0), 40, 1, 5)]).is_err());
    assert_eq!(tm.get_ipv4_lpm_entries(1).unwrap(), kept);
}

#[test]
fn table_entry_builder_builds_what_it_was_given() {
    let e = TableEntryBuilder::new()
        .device_id(4)
        .prefix(ip(10, 0, 0, 0))
        .prefix_len(24)
        .action(forward(3))
        .priority(11)
        .build()
        .unwrap();
    assert_eq!(e, entry(ip(10, 0, 0, 0), 24, 3, 11));
    let d = TableEntryBuilder::default()
        .prefix(ip(10, 0, 0, 0))
        .prefix_len(24)
        .action(TableAction::Drop)
        .build()
        .unwrap();
    assert_eq!(d.priority, 0);
    assert_eq!(d.action, TableAction::Drop);
}

#[test]
fn table_entry_builder_names_the_first_missing_field() {
    let message = |r: Result<TableEntry, P4RuntimeError>| match r {
        Err(P4RuntimeError::InvalidTableEntry(m)) => m,
        other => panic!("expected an invalid entry, got {:?}", other),
    };
    assert_eq!(message(TableEntryBuilder::new().build()), MISSING_PREFIX);
    assert_eq!(
        message(TableEntryBuilder::new().prefix(ip(1, 2, 3, 4)).action(forward(1)).build()),
        MISSING_PREFIX_LENGTH
    );
    assert_eq!(
        message(TableEntryBuilder::new().prefix(ip(1, 2, 3, 4)).prefix_len(8).build()),
        MISSING_ACTION
    );
    assert_eq!(MISSING_PREFIX, "Missing prefix");
    assert_eq!(MISSING_PREFIX_LENGTH, "Missing prefix length");
    assert_eq!(MISSING_ACTION, "Missing action");
}
