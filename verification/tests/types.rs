use p4_controller::types::{
    ControllerConfig, ControllerState, ErrorClass, Ipv4Address, MacAddress, P4RuntimeError,
    Statistics,
};

#[test]
fn mac_address_keeps_its_octets() {
    let mac = MacAddress::new([0x08, 0x00, 0x27, 0xab, 0xcd, 0xef]);
    assert_eq!(mac.as_bytes(), [0x08, 0x00, 0x27, 0xab, 0xcd, 0xef]);
}

#[test]
fn mac_address_text_is_lower_case_hex_with_colons() {
    let mac = MacAddress::new([0x08, 0x00, 0x00, 0x00, 0x00, 0x01]);
    assert_eq!(mac.to_string(), "08:00:00:00:00:01");
    let other = MacAddress::new([0xAA, 0xBB, 0xCC, 0xDD, 0xEE, 0xFF]);
    assert_eq!(other.to_string(), "aa:bb:cc:dd:ee:ff");
    let mixed = MacAddress::new([0x00, 0x0f, 0xf0, 0x9a, 0xa9, 0x10]);
    assert_eq!(mixed.to_string(), "00:0f:f0:9a:a9:10");
}

#[test]
fn mac_addresses_compare_by_octets() {
    let a = MacAddress::new([1, 2, 3, 4, 5, 6]);
    let b = MacAddress::new([1, 2, 3, 4, 5, 6]);
    let c = MacAddress::new([1, 2, 3, 4, 5, 7]);
    assert_eq!(a, b);
    assert_ne!(a, c);
}

#[test]
fn ipv4_address_keeps_its_value() {
    let ip = Ipv4Address::from_u32(0xC0A8_0101);
    assert_eq!(ip.as_u32(), 0xC0A8_0101);
    assert_eq!(Ipv4Address::from_u32(0).as_u32(), 0);
    assert_eq!(Ipv4Address::from_u32(u32::MAX).as_u32(), u32::MAX);
}

#[test]
fn ipv4_address_octets_are_most_significant_first() {
    let ip = Ipv4Address::from_octets([192, 168, 1, 10]);
    assert_eq!(ip.as_u32(), 0xC0A8_010A);
    assert_eq!(ip.octets(), [192, 168, 1, 10]);
    assert_eq!(Ipv4Address::from_u32(0x0A00_0005).octets(), [10, 0, 0, 5]);
    assert_eq!(Ipv4Address::from_octets([255, 255, 255, 255]).as_u32(), u32::MAX);
}

#[test]
fn ipv4_address_text_is_dotted_quad() {
    assert_eq!(Ipv4Address::from_u32(0xC0A8_0101).to_string(), "192.168.1.1");
    assert_eq!(Ipv4Address::from_u32(0).to_string(), "0.0.0.0");
    assert_eq!(Ipv4Address::from_u32(u32::MAX).to_string(), "255.255.255.255");
    assert_eq!(Ipv4Address::from_octets([10, 0, 100, 9]).to_string(), "10.0.100.9");
}

#[test]
fn error_text_names_the_kind_and_the_detail() {
    let e = P4RuntimeError::DeviceNotFound { device_id: 42 };
    assert_eq!(e.to_string(), "Device not found: 42");
    let e = P4RuntimeError::DeviceNotFound { device_id: 0 };
    assert_eq!(e.to_string(), "Device not found: 0");
    let e = P4RuntimeError::DeviceNotFound { device_id: u64::MAX };
    assert_eq!(e.to_string(), "Device not found: 18446744073709551615");
    let e = P4RuntimeError::TableNotFound { table_name: "ipv4_lpm".to_string() };
    assert_eq!(e.to_string(), "Table not found: ipv4_lpm");
    let e = P4RuntimeError::InvalidTableEntry("Missing prefix".to_string());
    assert_eq!(e.to_string(), "Invalid table entry: Missing prefix");
    let e = P4RuntimeError::SerializationError("bad".to_string());
    assert_eq!(e.to_string(), "Serialization error: bad");
    let e = P4RuntimeError::GrpcError { code: 14, message: "unavailable".to_string() };
    assert_eq!(e.to_string(), "gRPC error: unavailable");
}

#[test]
fn transport_failures_are_transient_and_the_rest_permanent() {
    for code in [1, 4, 8, 10, 14] {
        let e = P4RuntimeError::GrpcError { code, message: String::new() };
        assert_eq!(e.classification(), ErrorClass::Transient);
    }
    for code in [0, 2, 3, 5, 6, 7, 9, 11, 12, 13, 15, 16, -1] {
        let e = P4RuntimeError::GrpcError { code, message: String::new() };
        assert_eq!(e.classification(), ErrorClass::Permanent);
    }
    assert_eq!(
        P4RuntimeError::DeviceNotFound { device_id: 1 }.classification(),
        ErrorClass::Permanent
    );
    assert_eq!(
        P4RuntimeError::InvalidTableEntry(String::new()).classification(),
        ErrorClass::Permanent
    );
    assert_eq!(
        P4RuntimeError::SerializationError(String::new()).classification(),
        ErrorClass::Permanent
    );
    assert_eq!(
        P4RuntimeError::TableNotFound { table_name: String::new() }.classification(),
        ErrorClass::Permanent
    );
}

#[test]
fn defaults_are_empty() {
    let config = ControllerConfig::default();
    assert!(config.devices.is_empty());
    assert!(config.default_routes.is_empty());
    assert!(config.arp_table.is_empty());
    let stats = Statistics::default();
    assert_eq!(stats.packets_processed, 0);
    assert_eq!(stats.bytes_processed, 0);
    assert!(stats.table_hits.is_empty());
    assert!(stats.table_misses.is_empty());
    let state = ControllerState::default();
    assert!(state.connected_devices.is_empty());
    assert_eq!(state.statistics.packets_processed, 0);
}
