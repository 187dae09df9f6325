//! The configuration tree that the generators build: a gateway's device,
//! its overlay of virtual networks and peerings, and its underlay routing
//! domain.

use vstd::prelude::*;
use crate::driver::{Driver, answered, drew, drew_words, extends, fit, word, gen_u8};

verus! {

/// The packet driver of a device.
#[derive(Clone, Copy, Debug, PartialEq, Eq, Structural)]
pub enum PacketDriver {
    Kernel,
    Dpdk,
}

/// The log level of a device.
#[derive(Clone, Copy, Debug, PartialEq, Eq, Structural)]
pub enum LogLevel {
    Error,
    Warning,
    Info,
    Debug,
    Trace,
}

/// The kind of an interface.
#[derive(Clone, Copy, Debug, PartialEq, Eq, Structural)]
pub enum IfType {
    Ethernet,
    Loopback,
    Vlan,
    Vtep,
}

/// The role of an interface.
#[derive(Clone, Copy, Debug, PartialEq, Eq, Structural)]
pub enum IfRole {
    Fabric,
    External,
}

/// The network type of an OSPF interface.
#[derive(Clone, Copy, Debug, PartialEq, Eq, Structural)]
pub enum OspfNetworkType {
    Broadcast,
    NonBroadcast,
    PointToPoint,
    PointToMultipoint,
}

/// An address family that a BGP neighbor can activate.
#[derive(Clone, Copy, Debug, PartialEq, Eq, Structural)]
pub enum BgpAf {
    Ipv4Unicast,
    Ipv6Unicast,
    L2vpnEvpn,
}

/// The variant that index `i` selects, in declaration order.
pub open spec fn packet_driver_for(i: nat) -> PacketDriver {
    if i == 0 {
        PacketDriver::Kernel
    } else {
        PacketDriver::Dpdk
    }
}

/// The variant that index `i` selects, in declaration order.
pub open spec fn log_level_for(i: nat) -> LogLevel {
    if i == 0 {
        LogLevel::Error
    } else if i == 1 {
        LogLevel::Warning
    } else if i == 2 {
        LogLevel::Info
    } else if i == 3 {
        LogLevel::Debug
    } else {
        LogLevel::Trace
    }
}

/// The variant that index `i` selects, in declaration order.
pub open spec fn if_type_for(i: nat) -> IfType {
    if i == 0 {
        IfType::Ethernet
    } else if i == 1 {
        IfType::Loopback
    } else if i == 2 {
        IfType::Vlan
    } else {
        IfType::Vtep
    }
}

/// The variant that index `i` selects, in declaration order.
pub open spec fn ospf_network_type_for(i: nat) -> OspfNetworkType {
    if i == 0 {
        OspfNetworkType::Broadcast
    } else if i == 1 {
        OspfNetworkType::NonBroadcast
    } else if i == 2 {
        OspfNetworkType::PointToPoint
    } else {
        OspfNetworkType::PointToMultipoint
    }
}

/// The variant that index `i` selects, in declaration order.
pub open spec fn bgp_af_for(i: nat) -> BgpAf {
    if i == 0 {
        BgpAf::Ipv4Unicast
    } else if i == 1 {
        BgpAf::Ipv6Unicast
    } else {
        BgpAf::L2vpnEvpn
    }
}

impl PacketDriver {
    pub fn generate<D: Driver>(d: &mut D) -> (r: Option<Self>)
        ensures
            answered(*old(d), *final(d), r),
            drew_words(*old(d), *final(d), r, 1),
            r matches Some(v) ==> v == packet_driver_for(fit(word(*old(d), *final(d), 0), 0, 1)),
    {
        match gen_u8(d, 0, 1)? {
            0 => Some(PacketDriver::Kernel),
            _ => Some(PacketDriver::Dpdk),
        }
    }
}

impl LogLevel {
    pub fn generate<D: Driver>(d: &mut D) -> (r: Option<Self>)
        ensures
            answered(*old(d), *final(d), r),
            drew_words(*old(d), *final(d), r, 1),
            r matches Some(v) ==> v == log_level_for(fit(word(*old(d), *final(d), 0), 0, 4)),
    {
        match gen_u8(d, 0, 4)? {
            0 => Some(LogLevel::Error),
            1 => Some(LogLevel::Warning),
            2 => Some(LogLevel::Info),
            3 => Some(LogLevel::Debug),
            _ => Some(LogLevel::Trace),
        }
    }
}

impl IfType {
    pub fn generate<D: Driver>(d: &mut D) -> (r: Option<Self>)
        ensures
            answered(*old(d), *final(d), r),
            drew_words(*old(d), *final(d), r, 1),
            r matches Some(v) ==> v == if_type_for(fit(word(*old(d), *final(d), 0), 0, 3)),
    {
        match gen_u8(d, 0, 3)? {
            0 => Some(IfType::Ethernet),
            1 => Some(IfType::Loopback),
            2 => Some(IfType::Vlan),
            _ => Some(IfType::Vtep),
        }
    }
}

impl OspfNetworkType {
    pub fn generate<D: Driver>(d: &mut D) -> (r: Option<Self>)
        ensures
            answered(*old(d), *final(d), r),
            drew_words(*old(d), *final(d), r, 1),
            r matches Some(v) ==> v == ospf_network_type_for(fit(word(*old(d), *final(d), 0), 0, 3)),
    {
        match gen_u8(d, 0, 3)? {
            0 => Some(OspfNetworkType::Broadcast),
            1 => Some(OspfNetworkType::NonBroadcast),
            2 => Some(OspfNetworkType::PointToPoint),
            _ => Some(OspfNetworkType::PointToMultipoint),
        }
    }
}

impl BgpAf {
    pub fn generate<D: Driver>(d: &mut D) -> (r: Option<Self>)
        ensures
            answered(*old(d), *final(d), r),
            drew_words(*old(d), *final(d), r, 1),
            r matches Some(v) ==> v == bgp_af_for(fit(word(*old(d), *final(d), 0), 0, 2)),
    {
        match gen_u8(d, 0, 2)? {
            0 => Some(BgpAf::Ipv4Unicast),
            1 => Some(BgpAf::Ipv6Unicast),
            _ => Some(BgpAf::L2vpnEvpn),
        }
    }
}

/// The whole configuration of a gateway.
#[derive(Clone, Debug, PartialEq)]
pub struct GatewayConfig {
    pub generation: i64,
    pub device: Option<Device>,
    pub overlay: Option<Overlay>,
    pub underlay: Option<Underlay>,
}

/// The device settings of a gateway.
#[derive(Clone, Debug, PartialEq)]
pub struct Device {
    pub driver: PacketDriver,
    pub eal: Option<Eal>,
    pub ports: Vec<Ports>,
    pub hostname: String,
    pub loglevel: LogLevel,
}

/// Settings of the packet-processing environment of a device.
#[derive(Clone, Debug, PartialEq)]
pub struct Eal {
    pub args: Vec<String>,
}

/// A port of a device and the driver that serves it.
#[derive(Clone, Debug, PartialEq)]
pub struct Ports {
    pub name: String,
    pub driver: String,
}

/// Virtual networks and the peerings between them.
#[derive(Clone, Debug, PartialEq)]
pub struct Overlay {
    pub vpcs: Vec<Vpc>,
    pub peerings: Vec<VpcPeering>,
}

/// A virtual network.
#[derive(Clone, Debug, PartialEq)]
pub struct Vpc {
    pub name: String,
    pub id: String,
    pub vni: u32,
    pub interfaces: Vec<Interface>,
}

/// A peering between two virtual networks.
#[derive(Clone, Debug, PartialEq)]
pub struct VpcPeering {
    pub name: String,
    pub entries: Vec<PeeringEntryFor>,
}

/// One side of a peering: a virtual network and what it exposes.
#[derive(Clone, Debug, PartialEq)]
pub struct PeeringEntryFor {
    pub vpc: String,
    pub expose: Vec<Expose>,
}

/// What one side of a peering exposes.
#[derive(Clone, Debug, PartialEq)]
pub struct Expose {
    pub ips: Vec<PeeringIPs>,
    pub as_rules: Vec<PeeringAs>,
}

/// A block that a peering exposes, or a block that it keeps out.
#[derive(Clone, Debug, PartialEq)]
pub enum PeeringIpsRule {
    Cidr(String),
    Not(String),
}

/// A block that a peering exposes, or a block that it keeps out.
#[derive(Clone, Debug, PartialEq)]
pub enum PeeringAsRule {
    Cidr(String),
    Not(String),
}

/// A peering-IP rule.
#[derive(Clone, Debug, PartialEq)]
pub struct PeeringIPs {
    pub rule: Option<PeeringIpsRule>,
}

/// A peering-AS rule.
#[derive(Clone, Debug, PartialEq)]
pub struct PeeringAs {
    pub rule: Option<PeeringAsRule>,
}

/// The routing domains of the underlay.
#[derive(Clone, Debug, PartialEq)]
pub struct Underlay {
    pub vrfs: Vec<Vrf>,
}

/// A routing domain.
#[derive(Clone, Debug, PartialEq)]
pub struct Vrf {
    pub name: String,
    pub interfaces: Vec<Interface>,
    pub router: Option<RouterConfig>,
    pub ospf: Option<OspfConfig>,
}

/// A network interface.
#[derive(Clone, Debug, PartialEq)]
pub struct Interface {
    pub name: String,
    pub ipaddrs: Vec<String>,
    pub if_type: IfType,
    pub role: IfRole,
    pub vlan: Option<u32>,
    pub macaddr: Option<String>,
    pub ospf: Option<OspfInterface>,
    pub system_name: Option<String>,
}

/// OSPF settings of an interface.
#[derive(Clone, Debug, PartialEq)]
pub struct OspfInterface {
    pub passive: bool,
    pub area: String,
    pub cost: u32,
    pub network_type: Option<OspfNetworkType>,
}

/// OSPF settings of a routing domain.
#[derive(Clone, Debug, PartialEq)]
pub struct OspfConfig {
    pub router_id: String,
    pub vrf: Option<String>,
}

/// BGP settings of a routing domain.
#[derive(Clone, Debug, PartialEq)]
pub struct RouterConfig {
    pub asn: String,
    pub router_id: String,
    pub neighbors: Vec<BgpNeighbor>,
    pub ipv4_unicast: Option<BgpAddressFamilyIPv4>,
    pub ipv6_unicast: Option<BgpAddressFamilyIPv6>,
    pub l2vpn_evpn: Option<BgpAddressFamilyL2vpnEvpn>,
    pub route_maps: Vec<RouteMap>,
}

/// A BGP neighbor.
#[derive(Clone, Debug, PartialEq)]
pub struct BgpNeighbor {
    pub address: String,
    pub remote_asn: String,
    pub af_activate: Vec<BgpAf>,
    pub update_source: Option<BgpNeighborUpdateSource>,
}

/// Where a BGP session takes its source address from.
#[derive(Clone, Debug, PartialEq)]
pub enum UpdateSource {
    Address(String),
    Interface(String),
}

/// The update source of a BGP neighbor.
#[derive(Clone, Debug, PartialEq)]
pub struct BgpNeighborUpdateSource {
    pub source: Option<UpdateSource>,
}

/// The IPv4 unicast address family of a BGP router.
#[derive(Clone, Debug, PartialEq)]
pub struct BgpAddressFamilyIPv4 {
    pub redistribute_connected: bool,
    pub redistribute_static: bool,
    pub networks: Vec<String>,
}

/// The IPv6 unicast address family of a BGP router.
#[derive(Clone, Debug, PartialEq)]
pub struct BgpAddressFamilyIPv6 {
    pub redistribute_connected: bool,
    pub redistribute_static: bool,
    pub networks: Vec<String>,
}

/// The L2VPN EVPN address family of a BGP router.
#[derive(Clone, Debug, PartialEq)]
pub struct BgpAddressFamilyL2vpnEvpn {
    pub advertise_all_vni: bool,
}

/// A route policy.
#[derive(Clone, Debug, PartialEq)]
pub struct RouteMap {
    pub name: String,
    pub match_prefix_lists: Vec<String>,
    pub action: String,
    pub sequence: u32,
}

/// The block of a peering-IP rule, whether it exposes or excludes it.
pub open spec fn ips_block(r: PeeringIpsRule) -> Seq<char> {
    match r {
        PeeringIpsRule::Cidr(c) => c@,
        PeeringIpsRule::Not(c) => c@,
    }
}

/// The block of a peering-AS rule, whether it exposes or excludes it.
pub open spec fn as_block(r: PeeringAsRule) -> Seq<char> {
    match r {
        PeeringAsRule::Cidr(c) => c@,
        PeeringAsRule::Not(c) => c@,
    }
}

/// The block text of a peering-IP rule; empty where there is no rule.
pub open spec fn ips_rule_text(p: PeeringIPs) -> Seq<char> {
    match p.rule {
        Some(r) => ips_block(r),
        None => Seq::empty(),
    }
}

/// The block text of a peering-AS rule; empty where there is no rule.
pub open spec fn as_rule_text(p: PeeringAs) -> Seq<char> {
    match p.rule {
        Some(r) => as_block(r),
        None => Seq::empty(),
    }
}

/// The block texts of a list of peering-IP rules.
pub open spec fn ips_texts(v: Seq<PeeringIPs>) -> Seq<Seq<char>> {
    v.map_values(|p: PeeringIPs| ips_rule_text(p))
}

/// The block texts of a list of peering-AS rules.
pub open spec fn as_texts(v: Seq<PeeringAs>) -> Seq<Seq<char>> {
    v.map_values(|p: PeeringAs| as_rule_text(p))
}

/// The block text of a peering-IP rule.
pub fn get_peering_ip(item: &PeeringIPs) -> (r: Option<&String>)
    ensures
        item.rule is None ==> r is None,
        item.rule is Some ==> (r matches Some(s) && s@ == ips_rule_text(*item)),
{
    match &item.rule {
        Some(PeeringIpsRule::Cidr(ip)) => Some(ip),
        Some(PeeringIpsRule::Not(ip)) => Some(ip),
        None => None,
    }
}

/// The block text of a peering-AS rule.
pub fn get_peering_as_ip(item: &PeeringAs) -> (r: Option<&String>)
    ensures
        item.rule is None ==> r is None,
        item.rule is Some ==> (r matches Some(s) && s@ == as_rule_text(*item)),
{
    match &item.rule {
        Some(PeeringAsRule::Cidr(ip)) => Some(ip),
        Some(PeeringAsRule::Not(ip)) => Some(ip),
        None => None,
    }
}

} // verus!
