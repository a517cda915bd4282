//! Value types of the control-plane model.

use crate::text::{append_decimal, append_hex_octet, decimal, hex_octet};
use std::collections::HashMap;
use vstd::prelude::*;
use vstd::string::StringExecFns;

verus! {

/// Identifier of a forwarding device.
pub type DeviceId = u64;

/// Identifier of a switch port.
pub type PortId = u32;

/// The text of a MAC address with the given octets, as in
/// `08:00:00:00:00:01`.
pub open spec fn mac_text(octets: Seq<u8>) -> Seq<char> {
    hex_octet(octets[0]) + seq![':'] + hex_octet(octets[1]) + seq![':'] + hex_octet(octets[2])
        + seq![':'] + hex_octet(octets[3]) + seq![':'] + hex_octet(octets[4]) + seq![':']
        + hex_octet(octets[5])
}

/// The text of an IPv4 address in dotted-quad form, as in `192.168.1.1`.
pub open spec fn ipv4_text(addr: u32) -> Seq<char> {
    decimal((addr / 0x100_0000) as nat) + seq!['.'] + decimal(((addr / 0x1_0000) % 256) as nat)
        + seq!['.'] + decimal(((addr / 0x100) % 256) as nat) + seq!['.'] + decimal(
        (addr % 256) as nat,
    )
}

/// A 48-bit MAC address, first octet first.
#[derive(Debug, Clone, Copy, PartialEq, Eq, Hash, Structural)]
pub struct MacAddress {
    o0: u8,
    o1: u8,
    o2: u8,
    o3: u8,
    o4: u8,
    o5: u8,
}

impl View for MacAddress {
    type V = Seq<u8>;

    /// The six octets, in transmission order.
    closed spec fn view(&self) -> Seq<u8> {
        seq![self.o0, self.o1, self.o2, self.o3, self.o4, self.o5]
    }
}

impl MacAddress {
    /// The address whose octets are the first six elements of `octets`.
    pub closed spec fn from_octets(octets: Seq<u8>) -> MacAddress {
        MacAddress {
            o0: octets[0],
            o1: octets[1],
            o2: octets[2],
            o3: octets[3],
            o4: octets[4],
            o5: octets[5],
        }
    }

    /// The address with the given six octets.
    pub fn new(bytes: [u8; 6]) -> (r: Self)
        ensures
            r@ == bytes@,
            r == MacAddress::from_octets(bytes@),
    {
        let r = MacAddress {
            o0: bytes[0],
            o1: bytes[1],
            o2: bytes[2],
            o3: bytes[3],
            o4: bytes[4],
            o5: bytes[5],
        };
        assert(r@ =~= bytes@);
        r
    }

    /// The six octets of the address.
    pub fn as_bytes(&self) -> (r: [u8; 6])
        ensures
            r@ == self@,
    {
        let r = [self.o0, self.o1, self.o2, self.o3, self.o4, self.o5];
        assert(r@ =~= self@);
        r
    }

    /// The address as text: its octets as two lower-case hexadecimal digits
    /// each, separated by colons.
    pub fn to_string(&self) -> (r: String)
        ensures
            r@ == mac_text(self@),
    {
        let mut text = String::new();
        append_hex_octet(&mut text, self.o0);
        text.append(":");
        append_hex_octet(&mut text, self.o1);
        text.append(":");
        append_hex_octet(&mut text, self.o2);
        text.append(":");
        append_hex_octet(&mut text, self.o3);
        text.append(":");
        append_hex_octet(&mut text, self.o4);
        text.append(":");
        append_hex_octet(&mut text, self.o5);
        proof {
            reveal_strlit(":");
            assert(":"@ =~= seq![':']);
            assert(text@ =~= mac_text(self@));
        }
        text
    }

    /// Two addresses with the same octets are the same address.
    pub proof fn lemma_view_injective(a: MacAddress, b: MacAddress)
        requires
            a@ == b@,
        ensures
            a == b,
    {
        assert(a@[0] == b@[0]);
        assert(a@[1] == b@[1]);
        assert(a@[2] == b@[2]);
        assert(a@[3] == b@[3]);
        assert(a@[4] == b@[4]);
        assert(a@[5] == b@[5]);
    }

    /// Every address has exactly six octets, and is the address of these.
    pub proof fn lemma_view_len(self)
        ensures
            self@.len() == 6,
            MacAddress::from_octets(self@) == self,
    {
    }

    /// An address made of six octets has these as its octets.
    pub proof fn lemma_from_octets(octets: Seq<u8>)
        requires
            octets.len() == 6,
        ensures
            MacAddress::from_octets(octets)@ == octets,
    {
        assert(MacAddress::from_octets(octets)@ =~= octets);
    }
}

/// A 32-bit IPv4 address, most significant octet first.
#[derive(Debug, Clone, Copy, PartialEq, Eq, Hash, Structural)]
pub struct Ipv4Address(pub u32);

impl Ipv4Address {
    /// The address with the given 32-bit value.
    pub fn from_u32(addr: u32) -> (r: Self)
        ensures
            r.0 == addr,
    {
        Ipv4Address(addr)
    }

    /// The 32-bit value of the address.
    pub fn as_u32(&self) -> (r: u32)
        ensures
            r == self.0,
    {
        self.0
    }

    /// The address with the given octets, most significant first.
    pub fn from_octets(octets: [u8; 4]) -> (r: Self)
        ensures
            r.0 == octets@[0] * 0x100_0000 + octets@[1] * 0x1_0000 + octets@[2] * 0x100
                + octets@[3],
    {
        let a: u32 = octets[0] as u32;
        let b: u32 = octets[1] as u32;
        let c: u32 = octets[2] as u32;
        let d: u32 = octets[3] as u32;
        Ipv4Address(a * 0x100_0000 + b * 0x1_0000 + c * 0x100 + d)
    }

    /// The octets of the address, most significant first.
    pub fn octets(&self) -> (r: [u8; 4])
        ensures
            r@[0] == self.0 / 0x100_0000,
            r@[1] == (self.0 / 0x1_0000) % 256,
            r@[2] == (self.0 / 0x100) % 256,
            r@[3] == self.0 % 256,
    {
        [
            (self.0 / 0x100_0000) as u8,
            ((self.0 / 0x1_0000) % 256) as u8,
            ((self.0 / 0x100) % 256) as u8,
            (self.0 % 256) as u8,
        ]
    }

    /// The address as text, in dotted-quad form.
    pub fn to_string(&self) -> (r: String)
        ensures
            r@ == ipv4_text(self.0),
    {
        let octets = self.octets();
        let mut text = String::new();
        append_decimal(&mut text, octets[0] as u64);
        text.append(".");
        append_decimal(&mut text, octets[1] as u64);
        text.append(".");
        append_decimal(&mut text, octets[2] as u64);
        text.append(".");
        append_decimal(&mut text, octets[3] as u64);
        proof {
            reveal_strlit(".");
            assert("."@ =~= seq!['.']);
            assert(text@ =~= ipv4_text(self.0));
        }
        text
    }
}

/// Match key of a forwarding-table entry.
#[derive(Debug, Clone, Copy, PartialEq, Eq, Hash, Structural)]
pub struct TableKey {
    pub ipv4_dst: Ipv4Address,
    pub prefix_len: u8,
}

/// What a device does with a packet that matches an entry.
#[derive(Debug, Clone, Copy, PartialEq, Eq, Structural)]
pub enum TableAction {
    /// Rewrite the destination MAC and send the packet out of `port`.
    Ipv4Forward { dst_mac: MacAddress, port: PortId },
    /// Discard the packet.
    Drop,
}

/// One entry of a device's forwarding table.
#[derive(Debug, Clone, Copy, PartialEq, Eq, Structural)]
pub struct TableEntry {
    pub key: TableKey,
    pub action: TableAction,
    pub priority: u32,
}

impl TableEntry {
    /// Whether the entry's prefix length is one that IPv4 allows.
    pub open spec fn valid(self) -> bool {
        self.key.prefix_len <= 32
    }
}

/// Kind of comparison a table performs on one key field.
#[derive(Debug, Clone, Copy, PartialEq, Eq, Structural)]
pub enum MatchType {
    Exact,
    /// Longest prefix match.
    Lpm,
    Ternary,
    Range,
}

/// One field of a table's match key.
#[derive(Debug, Clone)]
pub struct KeyField {
    pub name: String,
    pub bitwidth: u32,
    pub match_type: MatchType,
}

/// An action that a table may invoke.
#[derive(Debug, Clone)]
pub struct ActionRef {
    pub name: String,
    pub id: u32,
}

/// One parameter of an action.
#[derive(Debug, Clone)]
pub struct ActionParam {
    pub name: String,
    pub bitwidth: u32,
}

/// Description of an action of the forwarding program.
#[derive(Debug, Clone)]
pub struct ActionInfo {
    pub name: String,
    pub id: u32,
    pub params: Vec<ActionParam>,
}

/// Description of a table of the forwarding program.
#[derive(Debug, Clone)]
pub struct TableInfo {
    pub name: String,
    pub id: u32,
    pub key_fields: Vec<KeyField>,
    pub action_refs: Vec<ActionRef>,
}

/// Description of the forwarding program loaded on a device.
#[derive(Debug)]
pub struct P4Info {
    pub tables: HashMap<String, TableInfo>,
    pub actions: HashMap<String, ActionInfo>,
}

impl P4Info {
    /// Whether two descriptions list the same tables and the same actions.
    pub open spec fn same_program(self, other: P4Info) -> bool {
        self.tables@ == other.tables@ && self.actions@ == other.actions@
    }
}

impl Clone for P4Info {
    fn clone(&self) -> (r: Self)
        ensures
            r.same_program(*self),
    {
        P4Info { tables: self.tables.clone(), actions: self.actions.clone() }
    }
}

/// A registered forwarding device.
#[derive(Debug)]
pub struct DeviceInfo {
    pub device_id: DeviceId,
    pub name: String,
    pub grpc_endpoint: String,
    pub p4info: Option<P4Info>,
}

impl DeviceInfo {
    /// Whether two records describe the same device: same id, name and
    /// endpoint, and the same program, if any.
    pub open spec fn same_device(self, other: DeviceInfo) -> bool {
        &&& self.device_id == other.device_id
        &&& self.name == other.name
        &&& self.grpc_endpoint == other.grpc_endpoint
        &&& match (self.p4info, other.p4info) {
            (Some(a), Some(b)) => a.same_program(b),
            (None, None) => true,
            _ => false,
        }
    }
}

impl Clone for DeviceInfo {
    fn clone(&self) -> (r: Self)
        ensures
            r.same_device(*self),
    {
        let p4info = match &self.p4info {
            Some(info) => Some(info.clone()),
            None => None,
        };
        DeviceInfo {
            device_id: self.device_id,
            name: self.name.clone(),
            grpc_endpoint: self.grpc_endpoint.clone(),
            p4info,
        }
    }
}

/// A route of the routing table.
#[derive(Debug)]
pub struct RouteEntry {
    pub prefix: Ipv4Address,
    pub prefix_len: u8,
    /// `None` for a directly connected network.
    pub next_hop: Option<Ipv4Address>,
    pub interface: String,
    pub metric: u32,
}

impl Clone for RouteEntry {
    fn clone(&self) -> (r: Self)
        ensures
            r == *self,
    {
        RouteEntry {
            prefix: self.prefix,
            prefix_len: self.prefix_len,
            next_hop: self.next_hop,
            interface: self.interface.clone(),
            metric: self.metric,
        }
    }
}

/// A resolved neighbour: the MAC address that answers for an IP address.
#[derive(Debug)]
pub struct ArpEntry {
    pub ip: Ipv4Address,
    pub mac: MacAddress,
    pub interface: String,
}

impl Clone for ArpEntry {
    fn clone(&self) -> (r: Self)
        ensures
            r == *self,
    {
        ArpEntry { ip: self.ip, mac: self.mac, interface: self.interface.clone() }
    }
}

/// A port of the switch.
#[derive(Debug)]
pub struct PortInfo {
    pub port_id: PortId,
    pub name: String,
    pub mac_address: MacAddress,
    pub ip_address: Option<Ipv4Address>,
    pub is_up: bool,
}

impl Clone for PortInfo {
    fn clone(&self) -> (r: Self)
        ensures
            r == *self,
    {
        PortInfo {
            port_id: self.port_id,
            name: self.name.clone(),
            mac_address: self.mac_address,
            ip_address: self.ip_address,
            is_up: self.is_up,
        }
    }
}

/// Initial contents of a controller.
#[derive(Debug, Clone)]
pub struct ControllerConfig {
    pub devices: Vec<DeviceInfo>,
    pub default_routes: Vec<RouteEntry>,
    pub arp_table: Vec<ArpEntry>,
}

impl Default for ControllerConfig {
    fn default() -> (r: Self)
        ensures
            r.devices@.len() == 0,
            r.default_routes@.len() == 0,
            r.arp_table@.len() == 0,
    {
        ControllerConfig { devices: Vec::new(), default_routes: Vec::new(), arp_table: Vec::new() }
    }
}

/// A batch of table entries addressed to one device.
#[derive(Debug, Clone)]
pub struct P4RuntimeMessage {
    pub device_id: DeviceId,
    pub table_entries: Vec<TableEntry>,
}

/// Counters reported by one device.
#[derive(Debug, Clone)]
pub struct Statistics {
    pub packets_processed: u64,
    pub bytes_processed: u64,
    pub table_hits: HashMap<String, u64>,
    pub table_misses: HashMap<String, u64>,
}

impl Default for Statistics {
    fn default() -> (r: Self)
        ensures
            r.packets_processed == 0,
            r.bytes_processed == 0,
            r.table_hits@ == Map::<String, u64>::empty(),
            r.table_misses@ == Map::<String, u64>::empty(),
    {
        Statistics {
            packets_processed: 0,
            bytes_processed: 0,
            table_hits: HashMap::new(),
            table_misses: HashMap::new(),
        }
    }
}

/// Snapshot of what the controller knows about itself.
#[derive(Debug, Clone)]
pub struct ControllerState {
    pub config: ControllerConfig,
    pub statistics: Statistics,
    pub connected_devices: HashMap<DeviceId, DeviceInfo>,
}

impl Default for ControllerState {
    fn default() -> (r: Self)
        ensures
            r.config.devices@.len() == 0,
            r.config.default_routes@.len() == 0,
            r.config.arp_table@.len() == 0,
            r.statistics.packets_processed == 0,
            r.statistics.bytes_processed == 0,
            r.connected_devices@ == Map::<DeviceId, DeviceInfo>::empty(),
    {
        ControllerState {
            config: ControllerConfig::default(),
            statistics: Statistics::default(),
            connected_devices: HashMap::new(),
        }
    }
}

/// Whether a failed operation is worth repeating.
#[derive(Debug, Clone, Copy, PartialEq, Eq, Structural)]
pub enum ErrorClass {
    /// The transport failed; the same request may succeed later.
    Transient,
    /// The request itself is at fault; repeating it cannot help.
    Permanent,
}

/// Errors of the control plane.
#[derive(Debug)]
pub enum P4RuntimeError {
    /// An RPC failed with the given gRPC status code and message.
    GrpcError { code: i32, message: String },
    /// A value could not be encoded or decoded.
    SerializationError(String),
    /// A route or table entry is malformed.
    InvalidTableEntry(String),
    /// The operation names a device that is not registered.
    DeviceNotFound { device_id: DeviceId },
    /// The operation names a table that the device does not have.
    TableNotFound { table_name: String },
}

/// The gRPC status codes that name a failure of the transport rather than of
/// the request: CANCELLED, DEADLINE_EXCEEDED, RESOURCE_EXHAUSTED, ABORTED and
/// UNAVAILABLE.
pub open spec fn is_transient_status(code: i32) -> bool {
    code == 1 || code == 4 || code == 8 || code == 10 || code == 14
}

impl P4RuntimeError {
    /// The text of the error.
    pub open spec fn text(self) -> Seq<char> {
        match self {
            P4RuntimeError::GrpcError { message, .. } => "gRPC error: "@ + message@,
            P4RuntimeError::SerializationError(message) => "Serialization error: "@ + message@,
            P4RuntimeError::InvalidTableEntry(message) => "Invalid table entry: "@ + message@,
            P4RuntimeError::DeviceNotFound { device_id } => "Device not found: "@ + decimal(
                device_id as nat,
            ),
            P4RuntimeError::TableNotFound { table_name } => "Table not found: "@ + table_name@,
        }
    }

    /// The error as text.
    pub fn to_string(&self) -> (r: String)
        ensures
            r@ == self.text(),
    {
        match self {
            P4RuntimeError::GrpcError { message, .. } => {
                String::from_str("gRPC error: ").concat(message.as_str())
            },
            P4RuntimeError::SerializationError(message) => {
                String::from_str("Serialization error: ").concat(message.as_str())
            },
            P4RuntimeError::InvalidTableEntry(message) => {
                String::from_str("Invalid table entry: ").concat(message.as_str())
            },
            P4RuntimeError::DeviceNotFound { device_id } => {
                let mut text = String::from_str("Device not found: ");
                append_decimal(&mut text, *device_id);
                text
            },
            P4RuntimeError::TableNotFound { table_name } => {
                String::from_str("Table not found: ").concat(table_name.as_str())
            },
        }
    }

    /// The class of the error: an RPC failure is transient where its status
    /// code names a failure of the transport; every other error is permanent.
    pub open spec fn class(self) -> ErrorClass {
        match self {
            P4RuntimeError::GrpcError { code, .. } => if is_transient_status(code) {
                ErrorClass::Transient
            } else {
                ErrorClass::Permanent
            },
            _ => ErrorClass::Permanent,
        }
    }

    /// Classifies the error as transient or permanent.
    pub fn classification(&self) -> (r: ErrorClass)
        ensures
            r == self.class(),
    {
        match self {
            P4RuntimeError::GrpcError { code, .. } => {
                if *code == 1 || *code == 4 || *code == 8 || *code == 10 || *code == 14 {
                    ErrorClass::Transient
                } else {
                    ErrorClass::Permanent
                }
            },
            _ => ErrorClass::Permanent,
        }
    }
}

} // verus!
