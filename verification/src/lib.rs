//! Control-plane core of a software-defined network controller.
//!
//! The crate keeps a routing model (routes, ARP entries, ports), translates
//! it into the forwarding table that every device should hold, and decides
//! how each device is brought to hold it. It performs no I/O: requests are
//! handed out as values, and their outcomes are handed back in.
//!
//! From the leaves to the root:
//!
//! - [`types`]: addresses, routes, entries, devices, errors.
//! - [`lpm`]: which prefixes cover an address, and which of them wins.
//! - [`routing_table`], [`translator`], [`routing_manager`]: the routing
//!   table, the translation of routes into entries, and the model that
//!   holds routes, ARP entries and ports.
//! - [`entries`], [`table_manager`]: sets of entries and their differences,
//!   and the store of what each device was last brought to hold.
//! - [`retry`], [`p4runtime_client`]: the retry policy and the connection
//!   state machine of a device.
//! - [`sync`], [`reconcile`], [`device_manager`]: pushes, why they converge,
//!   and the decisions on each registered device.
//! - [`controller`]: the model, the store and the devices kept in step.
//! - [`cli`]: the commands of the command line and the reading of their
//!   arguments.

pub mod cli;
pub mod controller;
pub mod device_manager;
pub mod entries;
pub mod lpm;
pub mod p4runtime_client;
pub mod reconcile;
pub mod retry;
pub mod routing_manager;
pub mod routing_table;
pub mod sync;
pub mod table_manager;
pub mod text;
pub mod translator;
pub mod types;

pub use cli::{ArpCommands, Cli, Commands, DeviceCommands, PortCommands, RouteCommands};
pub use controller::P4Controller;
pub use device_manager::DeviceManager;
pub use p4runtime_client::P4RuntimeClient;
pub use routing_manager::{RouteBuilder, RoutingManager};
pub use table_manager::{TableEntryBuilder, TableManager};
pub use types::{
    ActionInfo, ActionParam, ActionRef, ArpEntry, ControllerConfig, ControllerState, DeviceId,
    DeviceInfo, ErrorClass, Ipv4Address, KeyField, MacAddress, MatchType, P4Info, P4RuntimeError,
    P4RuntimeMessage, PortId, PortInfo, RouteEntry, Statistics, TableAction, TableEntry, TableInfo,
    TableKey,
};
