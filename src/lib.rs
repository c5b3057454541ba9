//! Overlay-network core: virtual interface addressing, IPv4 header inspection,
//! the node map of virtual address to transport endpoint, and the decisions of
//! the packet forwarding engine for the client and server roles.

pub mod addr;
pub mod packet;
pub mod node_map;
pub mod device;
pub mod forward;
pub mod wire;

pub use addr::{Endpoint, TunIpAddr};
pub use packet::{ipv4_destination, ipv4_source, is_ipv4_header_ok, read_word, IPV4_MIN_HEADER};
pub use node_map::{NodeEntry, NodeMap};
pub use device::{
    check_device_config, copy_packet, create_device, skip_error, CreationFault, DeviceError,
    Platform, Tun, TunDevice, LINUX_INVALID_ARGUMENT,
};
pub use forward::{
    check_ingress, is_node_map_query, keepalive_message, on_device_error, parse_keepalive, route_egress,
    ClientEngine, Counters, Egress, Ingress, IntegrityError, LoopControl, ServerAction,
    ServerEngine, KEEPALIVE, NODE_MAP_QUERY,
};
pub use wire::{decode_snapshot, encode_snapshot, ENTRY_LEN, SNAPSHOT};
