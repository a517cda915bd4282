//! The commands of the command-line front end, and the reading of the text
//! arguments that are this project's own: MAC addresses and link states.

use crate::types::{
    ArpEntry, DeviceId, DeviceInfo, Ipv4Address, MacAddress, PortId, PortInfo, RouteEntry,
};
use vstd::prelude::*;
use vstd::string::StringSliceAdditionalSpecFns;
use vstd::utf8::encode_utf8;

verus! {

/// A command line.
#[derive(Debug)]
pub struct Cli {
    pub command: Commands,
}

/// The commands.
#[derive(Debug)]
#[allow(inconsistent_fields)]
pub enum Commands {
    Device { action: DeviceCommands },
    Route { action: RouteCommands },
    Arp { action: ArpCommands },
    Port { action: PortCommands },
    /// Show the counters of every device.
    Stats,
    /// Show the state of the controller.
    Status,
}

/// Commands on devices.
#[derive(Debug)]
pub enum DeviceCommands {
    Add { device_id: DeviceId, name: String, endpoint: String },
    Remove { device_id: DeviceId },
    List,
}

/// Commands on routes.
#[derive(Debug)]
pub enum RouteCommands {
    Add {
        prefix: String,
        prefix_len: u8,
        next_hop: Option<String>,
        interface: String,
        metric: u32,
    },
    Remove { prefix: String, prefix_len: u8 },
    List,
    /// Show the routes that cover an address.
    Lookup { ip: String },
}

/// Commands on ARP entries.
#[derive(Debug)]
pub enum ArpCommands {
    Add { ip: String, mac: String, interface: String },
    Remove { ip: String },
    List,
    Lookup { ip: String },
}

/// Commands on ports.
#[derive(Debug)]
pub enum PortCommands {
    Add { port_id: PortId, name: String, mac: String, ip: Option<String> },
    Remove { port_id: PortId },
    List,
    /// Set the link state, given as `up` or `down`.
    Update { port_id: PortId, status: String },
}

/// Why a text is not a MAC address.
#[derive(Debug, Clone, Copy, PartialEq, Eq, Structural)]
pub enum MacParseError {
    /// The text does not consist of six parts separated by colons.
    Format,
    /// One of the six parts is not the hexadecimal numeral of an octet.
    Octet,
}

/// The parts of `text` between the separators: a separator starts a new
/// part, every other byte extends the last one.
pub open spec fn split_on(text: Seq<u8>, separator: u8) -> Seq<Seq<u8>>
    decreases text.len(),
{
    if text.len() == 0 {
        seq![Seq::<u8>::empty()]
    } else {
        let parts = split_on(text.drop_last(), separator);
        if text.last() == separator {
            parts.push(Seq::<u8>::empty())
        } else {
            parts.update(parts.len() - 1, parts.last().push(text.last()))
        }
    }
}

/// Whether the byte is a hexadecimal digit, in either case.
pub open spec fn is_hex_digit(byte: u8) -> bool {
    (0x30 <= byte <= 0x39) || (0x61 <= byte <= 0x66) || (0x41 <= byte <= 0x46)
}

/// The value of a hexadecimal digit.
pub open spec fn hex_value(byte: u8) -> nat {
    if 0x30 <= byte <= 0x39 {
        (byte - 0x30) as nat
    } else if 0x61 <= byte <= 0x66 {
        (byte - 0x61 + 10) as nat
    } else {
        (byte - 0x41 + 10) as nat
    }
}

/// The number that a sequence of hexadecimal digits denotes.
pub open spec fn hex_number(digits: Seq<u8>) -> nat
    decreases digits.len(),
{
    if digits.len() == 0 {
        0
    } else {
        16 * hex_number(digits.drop_last()) + hex_value(digits.last())
    }
}

/// The digits of a numeral: the numeral without the plus sign that may
/// stand in front.
pub open spec fn numeral_digits(part: Seq<u8>) -> Seq<u8> {
    if part.len() > 0 && part[0] == 0x2b {
        part.skip(1)
    } else {
        part
    }
}

/// The octet that a hexadecimal numeral denotes: the numeral is an optional
/// plus sign and then one or more hexadecimal digits, and denotes at most
/// 255.
pub open spec fn parse_octet(part: Seq<u8>) -> Option<u8> {
    let digits = numeral_digits(part);
    if digits.len() > 0 && (forall|i: int|
        0 <= i < digits.len() ==> is_hex_digit(#[trigger] digits[i])) && hex_number(digits)
        <= 255 {
        Some(hex_number(digits) as u8)
    } else {
        None
    }
}

/// The MAC address that a text denotes: six hexadecimal numerals of octets,
/// separated by colons.
pub open spec fn parse_mac(text: Seq<u8>) -> Result<Seq<u8>, MacParseError> {
    let parts = split_on(text, 0x3a);
    if parts.len() != 6 {
        Err(MacParseError::Format)
    } else if exists|k: int| 0 <= k < 6 && parse_octet(#[trigger] parts[k]) is None {
        Err(MacParseError::Octet)
    } else {
        Ok(parts.map_values(|part: Seq<u8>| parse_octet(part)->Some_0))
    }
}

/// The number of a numeral is at least the number of each of its beginnings.
proof fn lemma_hex_number_grows(digits: Seq<u8>, k: int)
    requires
        0 <= k <= digits.len(),
    ensures
        hex_number(digits.take(k)) <= hex_number(digits),
    decreases digits.len(),
{
    if k == digits.len() {
        assert(digits.take(k) =~= digits);
    } else {
        lemma_hex_number_grows(digits.drop_last(), k);
        assert(digits.drop_last().take(k) =~= digits.take(k));
    }
}

/// Splits the text at the separators.
fn split_bytes(text: &[u8], separator: u8) -> (parts: Vec<Vec<u8>>)
    ensures
        parts@.map_values(|part: Vec<u8>| part@) == split_on(text@, separator),
{
    let ghost view = |part: Vec<u8>| part@;
    let mut done: Vec<Vec<u8>> = Vec::new();
    let mut current: Vec<u8> = Vec::new();
    let mut i: usize = 0;
    while i < text.len()
        invariant
            i <= text@.len(),
            view == |part: Vec<u8>| part@,
            done@.map_values(view).push(current@) == split_on(text@.take(i as int), separator),
        decreases text@.len() - i,
    {
        let byte = text[i];
        proof {
            assert(text@.take(i + 1).drop_last() =~= text@.take(i as int));
            assert(text@.take(i + 1).last() == byte);
        }
        let ghost before = done@.map_values(view);
        if byte == separator {
            let ghost finished = current@;
            done.push(current);
            current = Vec::new();
            assert(done@.map_values(view) =~= before.push(finished));
        } else {
            let ghost shorter = current@;
            current.push(byte);
            assert(before.push(shorter).update(before.len() as int, shorter.push(byte))
                =~= before.push(current@));
        }
        i += 1;
    }
    assert(text@.take(i as int) == text@);
    let ghost before = done@.map_values(view);
    let ghost last = current@;
    done.push(current);
    assert(done@.map_values(view) =~= before.push(last));
    done
}

/// Reads a hexadecimal numeral of an octet.
fn read_octet(part: &Vec<u8>) -> (r: Option<u8>)
    ensures
        r == parse_octet(part@),
{
    let start: usize = if part.len() > 0 && part[0] == 0x2b {
        1
    } else {
        0
    };
    let ghost digits = numeral_digits(part@);
    assert(digits == part@.skip(start as int));
    if start == part.len() {
        return None;
    }
    let mut value: u32 = 0;
    let mut i: usize = start;
    while i < part.len()
        invariant
            start <= i <= part@.len(),
            start <= 1,
            digits == part@.skip(start as int),
            digits == numeral_digits(part@),
            value == hex_number(digits.take(i - start)),
            value <= 255,
            forall|j: int| 0 <= j < i - start ==> is_hex_digit(#[trigger] digits[j]),
        decreases part@.len() - i,
    {
        let byte = part[i];
        assert(digits[i - start] == byte);
        let digit: u32 = if 0x30 <= byte && byte <= 0x39 {
            (byte - 0x30) as u32
        } else if 0x61 <= byte && byte <= 0x66 {
            (byte - 0x61 + 10) as u32
        } else if 0x41 <= byte && byte <= 0x46 {
            (byte - 0x41 + 10) as u32
        } else {
            assert(!is_hex_digit(digits[i - start]));
            return None;
        };
        proof {
            assert(digits.take(i - start + 1).drop_last() =~= digits.take(i - start));
            assert(digits.take(i - start + 1).last() == byte);
        }
        value = value * 16 + digit;
        if value > 255 {
            proof {
                lemma_hex_number_grows(digits, i - start + 1);
            }
            return None;
        }
        i += 1;
    }
    assert(digits.take(i - start) =~= digits);
    Some(value as u8)
}

/// Reads a MAC address: six hexadecimal numerals of octets, separated by
/// colons. A numeral may carry a plus sign and leading zeros.
pub fn parse_mac_address(mac_str: &str) -> (result: Result<[u8; 6], MacParseError>)
    ensures
        match result {
            Ok(bytes) => parse_mac(mac_str.spec_bytes()) == Ok::<Seq<u8>, MacParseError>(bytes@),
            Err(e) => parse_mac(mac_str.spec_bytes()) == Err::<Seq<u8>, MacParseError>(e),
        },
{
    let parts = split_bytes(mac_str.as_bytes(), 0x3a);
    let ghost texts = split_on(mac_str.spec_bytes(), 0x3a);
    assert(texts.len() == parts@.len());
    if parts.len() != 6 {
        return Err(MacParseError::Format);
    }
    let mut bytes: [u8; 6] = [0u8; 6];
    let mut k: usize = 0;
    while k < 6
        invariant
            k <= 6,
            parts@.len() == 6,
            texts == parts@.map_values(|part: Vec<u8>| part@),
            texts == split_on(mac_str.spec_bytes(), 0x3a),
            forall|j: int| 0 <= j < k ==> parse_octet(#[trigger] texts[j]) == Some(bytes@[j]),
        decreases 6 - k,
    {
        assert(texts[k as int] == parts@[k as int]@);
        match read_octet(&parts[k]) {
            Some(octet) => {
                bytes[k] = octet;
            },
            None => {
                assert(parse_octet(texts[k as int]) is None);
                return Err(MacParseError::Octet);
            },
        }
        k += 1;
    }
    assert(bytes@ =~= texts.map_values(|part: Seq<u8>| parse_octet(part)->Some_0));
    Ok(bytes)
}

/// The link state that a text names: `up` or `down`, in any mix of upper
/// and lower case.
pub open spec fn parse_status(text: Seq<u8>) -> Option<bool> {
    if text.len() == 2 && lower(text[0]) == 0x75 && lower(text[1]) == 0x70 {
        Some(true)
    } else if text.len() == 4 && lower(text[0]) == 0x64 && lower(text[1]) == 0x6f && lower(text[2])
        == 0x77 && lower(text[3]) == 0x6e {
        Some(false)
    } else {
        None
    }
}

/// The lower-case form of an ASCII letter; every other byte is itself.
pub open spec fn lower(byte: u8) -> u8 {
    if 0x41 <= byte <= 0x5a {
        (byte + 0x20) as u8
    } else {
        byte
    }
}

/// Computes the lower-case form of an ASCII letter.
fn to_lower(byte: u8) -> (r: u8)
    ensures
        r == lower(byte),
{
    if 0x41 <= byte && byte <= 0x5a {
        byte + 0x20
    } else {
        byte
    }
}

/// Reads a link state: `up` gives `true`, `down` gives `false`, in any mix
/// of upper and lower case; anything else gives `None`.
pub fn parse_port_status(status: &str) -> (result: Option<bool>)
    ensures
        result == parse_status(status.spec_bytes()),
{
    let text = status.as_bytes();
    if text.len() == 2 && to_lower(text[0]) == 0x75 && to_lower(text[1]) == 0x70 {
        Some(true)
    } else if text.len() == 4 && to_lower(text[0]) == 0x64 && to_lower(text[1]) == 0x6f && to_lower(
        text[2],
    ) == 0x77 && to_lower(text[3]) == 0x6e {
        Some(false)
    } else {
        None
    }
}

/// Whether the byte is a decimal digit.
pub open spec fn is_decimal_digit(byte: u8) -> bool {
    0x30 <= byte <= 0x39
}

/// The number that a sequence of decimal digits denotes.
pub open spec fn decimal_number(digits: Seq<u8>) -> nat
    decreases digits.len(),
{
    if digits.len() == 0 {
        0
    } else {
        10 * decimal_number(digits.drop_last()) + (digits.last() - 0x30) as nat
    }
}

/// The octet that a decimal numeral denotes: the numeral is one to three
/// decimal digits without a leading zero, but for `0` itself, and denotes at
/// most 255.
pub open spec fn parse_decimal_octet(part: Seq<u8>) -> Option<u8> {
    if 1 <= part.len() <= 3 && (forall|i: int|
        0 <= i < part.len() ==> is_decimal_digit(#[trigger] part[i])) && (part.len() == 1
        || part[0] != 0x30) && decimal_number(part) <= 255 {
        Some(decimal_number(part) as u8)
    } else {
        None
    }
}

/// The 32-bit value of the IPv4 address that a text denotes in dotted-quad
/// form: four decimal numerals of octets, separated by dots.
pub open spec fn parse_ipv4(text: Seq<u8>) -> Option<u32> {
    let parts = split_on(text, 0x2e);
    if parts.len() == 4 && (forall|k: int| 0 <= k < 4 ==> parse_decimal_octet(#[trigger] parts[k])
        is Some) {
        Some(
            (parse_decimal_octet(parts[0])->Some_0 * 0x100_0000 + parse_decimal_octet(
                parts[1],
            )->Some_0 * 0x1_0000 + parse_decimal_octet(parts[2])->Some_0 * 0x100
                + parse_decimal_octet(parts[3])->Some_0) as u32,
        )
    } else {
        None
    }
}

/// Reads a decimal numeral of an octet.
fn read_decimal_octet(part: &Vec<u8>) -> (r: Option<u8>)
    ensures
        r == parse_decimal_octet(part@),
{
    if part.len() < 1 || part.len() > 3 {
        return None;
    }
    if part.len() > 1 && part[0] == 0x30 {
        return None;
    }
    let mut value: u32 = 0;
    let mut i: usize = 0;
    while i < part.len()
        invariant
            i <= part@.len() <= 3,
            value == decimal_number(part@.take(i as int)),
            value <= 999,
            i == 0 ==> value == 0,
            i == 1 ==> value <= 9,
            i == 2 ==> value <= 99,
            forall|j: int| 0 <= j < i ==> is_decimal_digit(#[trigger] part@[j]),
        decreases part@.len() - i,
    {
        let byte = part[i];
        if byte < 0x30 || byte > 0x39 {
            assert(!is_decimal_digit(part@[i as int]));
            return None;
        }
        proof {
            assert(part@.take(i + 1).drop_last() =~= part@.take(i as int));
            assert(part@.take(i + 1).last() == byte);
        }
        value = value * 10 + (byte - 0x30) as u32;
        i += 1;
    }
    assert(part@.take(i as int) =~= part@);
    if value > 255 {
        None
    } else {
        Some(value as u8)
    }
}

/// Reads an IPv4 address in dotted-quad form: four decimal numerals of
/// octets, separated by dots. A numeral has no sign and no leading zero.
pub fn parse_ipv4_address(text: &str) -> (result: Option<Ipv4Address>)
    ensures
        match result {
            Some(address) => parse_ipv4(text.spec_bytes()) == Some(address.0),
            None => parse_ipv4(text.spec_bytes()) is None,
        },
{
    let parts = split_bytes(text.as_bytes(), 0x2e);
    let ghost texts = split_on(text.spec_bytes(), 0x2e);
    assert(texts.len() == parts@.len());
    if parts.len() != 4 {
        return None;
    }
    let mut octets: [u8; 4] = [0u8; 4];
    let mut k: usize = 0;
    while k < 4
        invariant
            k <= 4,
            parts@.len() == 4,
            texts == parts@.map_values(|part: Vec<u8>| part@),
            texts == split_on(text.spec_bytes(), 0x2e),
            forall|j: int|
                0 <= j < k ==> parse_decimal_octet(#[trigger] texts[j]) == Some(octets@[j]),
        decreases 4 - k,
    {
        assert(texts[k as int] == parts@[k as int]@);
        match read_decimal_octet(&parts[k]) {
            Some(octet) => {
                octets[k] = octet;
            },
            None => {
                assert(parse_decimal_octet(texts[k as int]) is None);
                return None;
            },
        }
        k += 1;
    }
    Some(Ipv4Address::from_octets(octets))
}

/// Why a command cannot be carried out as it was given.
#[derive(Debug, Clone, Copy, PartialEq, Eq, Structural)]
pub enum CliError {
    /// A text that should be an IPv4 address is none.
    InvalidIpAddress,
    /// A text that should be a MAC address is none.
    InvalidMacAddress(MacParseError),
    /// A text that should be `up` or `down` is neither.
    InvalidPortStatus,
}

/// What a command asks for, with its arguments read.
#[derive(Debug)]
pub enum Request {
    AddDevice(DeviceInfo),
    RemoveDevice(DeviceId),
    ListDevices,
    AddRoute(RouteEntry),
    RemoveRoute { prefix: Ipv4Address, prefix_len: u8 },
    ListRoutes,
    LookupRoute(Ipv4Address),
    AddArp(ArpEntry),
    RemoveArp(Ipv4Address),
    ListArp,
    LookupArp(Ipv4Address),
    AddPort(PortInfo),
    RemovePort(PortId),
    ListPorts,
    UpdatePort { port_id: PortId, is_up: bool },
    ShowStatistics,
    ShowStatus,
}

/// The IPv4 address that a text denotes, or the error for a text that
/// denotes none.
pub open spec fn address_of(text: String) -> Result<Ipv4Address, CliError> {
    match parse_ipv4(encode_utf8(text@)) {
        Some(value) => Ok(Ipv4Address(value)),
        None => Err(CliError::InvalidIpAddress),
    }
}

/// The MAC address that a text denotes, or the error for a text that
/// denotes none.
pub open spec fn mac_of(text: String) -> Result<MacAddress, CliError> {
    match parse_mac(encode_utf8(text@)) {
        Ok(octets) => Ok(MacAddress::from_octets(octets)),
        Err(e) => Err(CliError::InvalidMacAddress(e)),
    }
}

/// What a command on routes asks for. A prefix is read before a next hop.
pub open spec fn route_request(command: RouteCommands) -> Result<Request, CliError> {
    match command {
        RouteCommands::Add { prefix, prefix_len, next_hop, interface, metric } => match address_of(
            prefix,
        ) {
            Err(e) => Err(e),
            Ok(prefix) => match next_hop {
                None => Ok(
                    Request::AddRoute(
                        RouteEntry { prefix, prefix_len, next_hop: None, interface, metric },
                    ),
                ),
                Some(text) => match address_of(text) {
                    Err(e) => Err(e),
                    Ok(hop) => Ok(
                        Request::AddRoute(
                            RouteEntry {
                                prefix,
                                prefix_len,
                                next_hop: Some(hop),
                                interface,
                                metric,
                            },
                        ),
                    ),
                },
            },
        },
        RouteCommands::Remove { prefix, prefix_len } => match address_of(prefix) {
            Err(e) => Err(e),
            Ok(prefix) => Ok(Request::RemoveRoute { prefix, prefix_len }),
        },
        RouteCommands::List => Ok(Request::ListRoutes),
        RouteCommands::Lookup { ip } => match address_of(ip) {
            Err(e) => Err(e),
            Ok(ip) => Ok(Request::LookupRoute(ip)),
        },
    }
}

/// What a command on ARP entries asks for. An IP address is read before a
/// MAC address.
pub open spec fn arp_request(command: ArpCommands) -> Result<Request, CliError> {
    match command {
        ArpCommands::Add { ip, mac, interface } => match address_of(ip) {
            Err(e) => Err(e),
            Ok(ip) => match mac_of(mac) {
                Err(e) => Err(e),
                Ok(mac) => Ok(Request::AddArp(ArpEntry { ip, mac, interface })),
            },
        },
        ArpCommands::Remove { ip } => match address_of(ip) {
            Err(e) => Err(e),
            Ok(ip) => Ok(Request::RemoveArp(ip)),
        },
        ArpCommands::List => Ok(Request::ListArp),
        ArpCommands::Lookup { ip } => match address_of(ip) {
            Err(e) => Err(e),
            Ok(ip) => Ok(Request::LookupArp(ip)),
        },
    }
}

/// What a command on ports asks for. A MAC address is read before an IP
/// address; a port that is added is up.
pub open spec fn port_request(command: PortCommands) -> Result<Request, CliError> {
    match command {
        PortCommands::Add { port_id, name, mac, ip } => match mac_of(mac) {
            Err(e) => Err(e),
            Ok(mac_address) => match ip {
                None => Ok(
                    Request::AddPort(
                        PortInfo { port_id, name, mac_address, ip_address: None, is_up: true },
                    ),
                ),
                Some(text) => match address_of(text) {
                    Err(e) => Err(e),
                    Ok(ip) => Ok(
                        Request::AddPort(
                            PortInfo {
                                port_id,
                                name,
                                mac_address,
                                ip_address: Some(ip),
                                is_up: true,
                            },
                        ),
                    ),
                },
            },
        },
        PortCommands::Remove { port_id } => Ok(Request::RemovePort(port_id)),
        PortCommands::List => Ok(Request::ListPorts),
        PortCommands::Update { port_id, status } => match parse_status(encode_utf8(status@)) {
            Some(is_up) => Ok(Request::UpdatePort { port_id, is_up }),
            None => Err(CliError::InvalidPortStatus),
        },
    }
}

/// What a command line asks for.
pub open spec fn request_of(cli: Cli) -> Result<Request, CliError> {
    match cli.command {
        Commands::Device { action } => match action {
            DeviceCommands::Add { device_id, name, endpoint } => Ok(
                Request::AddDevice(
                    DeviceInfo { device_id, name, grpc_endpoint: endpoint, p4info: None },
                ),
            ),
            DeviceCommands::Remove { device_id } => Ok(Request::RemoveDevice(device_id)),
            DeviceCommands::List => Ok(Request::ListDevices),
        },
        Commands::Route { action } => route_request(action),
        Commands::Arp { action } => arp_request(action),
        Commands::Port { action } => port_request(action),
        Commands::Stats => Ok(Request::ShowStatistics),
        Commands::Status => Ok(Request::ShowStatus),
    }
}

/// Reads an IPv4 address that a command carries.
fn read_address(text: &String) -> (result: Result<Ipv4Address, CliError>)
    ensures
        result == address_of(*text),
{
    match parse_ipv4_address(text.as_str()) {
        Some(address) => Ok(address),
        None => Err(CliError::InvalidIpAddress),
    }
}

/// Reads a MAC address that a command carries.
fn read_mac(text: &String) -> (result: Result<MacAddress, CliError>)
    ensures
        result == mac_of(*text),
{
    match parse_mac_address(text.as_str()) {
        Ok(bytes) => Ok(MacAddress::new(bytes)),
        Err(e) => Err(CliError::InvalidMacAddress(e)),
    }
}

/// Reads the arguments of a command line and says what it asks for, or why
/// it cannot be carried out.
pub fn interpret(cli: Cli) -> (result: Result<Request, CliError>)
    ensures
        result == request_of(cli),
{
    match cli.command {
        Commands::Device { action } => match action {
            DeviceCommands::Add { device_id, name, endpoint } => Ok(
                Request::AddDevice(
                    DeviceInfo { device_id, name, grpc_endpoint: endpoint, p4info: None },
                ),
            ),
            DeviceCommands::Remove { device_id } => Ok(Request::RemoveDevice(device_id)),
            DeviceCommands::List => Ok(Request::ListDevices),
        },
        Commands::Route { action } => match action {
            RouteCommands::Add { prefix, prefix_len, next_hop, interface, metric } => {
                let prefix = match read_address(&prefix) {
                    Ok(prefix) => prefix,
                    Err(e) => {
                        return Err(e);
                    },
                };
                let next_hop = match next_hop {
                    None => None,
                    Some(text) => match read_address(&text) {
                        Ok(hop) => Some(hop),
                        Err(e) => {
                            return Err(e);
                        },
                    },
                };
                Ok(
                    Request::AddRoute(
                        RouteEntry { prefix, prefix_len, next_hop, interface, metric },
                    ),
                )
            },
            RouteCommands::Remove { prefix, prefix_len } => match read_address(&prefix) {
                Ok(prefix) => Ok(Request::RemoveRoute { prefix, prefix_len }),
                Err(e) => Err(e),
            },
            RouteCommands::List => Ok(Request::ListRoutes),
            RouteCommands::Lookup { ip } => match read_address(&ip) {
                Ok(ip) => Ok(Request::LookupRoute(ip)),
                Err(e) => Err(e),
            },
        },
        Commands::Arp { action } => match action {
            ArpCommands::Add { ip, mac, interface } => {
                let ip = match read_address(&ip) {
                    Ok(ip) => ip,
                    Err(e) => {
                        return Err(e);
                    },
                };
                match read_mac(&mac) {
                    Ok(mac) => Ok(Request::AddArp(ArpEntry { ip, mac, interface })),
                    Err(e) => Err(e),
                }
            },
            ArpCommands::Remove { ip } => match read_address(&ip) {
                Ok(ip) => Ok(Request::RemoveArp(ip)),
                Err(e) => Err(e),
            },
            ArpCommands::List => Ok(Request::ListArp),
            ArpCommands::Lookup { ip } => match read_address(&ip) {
                Ok(ip) => Ok(Request::LookupArp(ip)),
                Err(e) => Err(e),
            },
        },
        Commands::Port { action } => match action {
            PortCommands::Add { port_id, name, mac, ip } => {
                let mac_address = match read_mac(&mac) {
                    Ok(mac) => mac,
                    Err(e) => {
                        return Err(e);
                    },
                };
                let ip_address = match ip {
                    None => None,
                    Some(text) => match read_address(&text) {
                        Ok(ip) => Some(ip),
                        Err(e) => {
                            return Err(e);
                        },
                    },
                };
                Ok(
                    Request::AddPort(
                        PortInfo { port_id, name, mac_address, ip_address, is_up: true },
                    ),
                )
            },
            PortCommands::Remove { port_id } => Ok(Request::RemovePort(port_id)),
            PortCommands::List => Ok(Request::ListPorts),
            PortCommands::Update { port_id, status } => match parse_port_status(status.as_str()) {
                Some(is_up) => Ok(Request::UpdatePort { port_id, is_up }),
                None => Err(CliError::InvalidPortStatus),
            },
        },
        Commands::Stats => Ok(Request::ShowStatistics),
        Commands::Status => Ok(Request::ShowStatus),
    }
}

} // verus!
