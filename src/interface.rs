//! Interfaces, whose optional fields follow from their type, and their
//! OSPF settings.

use vstd::prelude::*;
use crate::config::{
    if_type_for, ospf_network_type_for, IfRole, IfType, Interface, OspfConfig, OspfInterface,
    OspfNetworkType,
};
use crate::driver::{
    Driver, answered, drew, drew_words, extends, fit, word, gen_any_u32, gen_bool, gen_u16,
};
use crate::support::{
    Ipv4AddrString, LinuxIfName, MacAddrString, UniqueV4InterfaceAddressGenerator,
    UniqueV6InterfaceAddressGenerator, is_if_name, is_ipv4_text,
    is_v4_block, is_v4_cidr, is_v6_cidr, texts, v4_net_mask,
};
use crate::text::{mac_text, push_char, push_digits, ipv4_text, v4_cidr_text};

verus! {

/// `t` is the text of some MAC address.
pub open spec fn is_mac(t: Seq<char>) -> bool {
    exists|w: u64| t == mac_text(w)
}

/// OSPF settings of an interface: an IPv4 area and a network type.
pub open spec fn ospf_interface_ok(o: OspfInterface) -> bool {
    is_ipv4_text(o.area@) && o.network_type is Some
}

/// OSPF settings of a routing domain: an IPv4 router id and, where given, a
/// routing-domain name of the interface-name form.
pub open spec fn ospf_config_ok(o: OspfConfig) -> bool {
    &&& is_ipv4_text(o.router_id@)
    &&& o.vrf matches Some(v) ==> is_if_name(v@)
}

/// The type carries a MAC address and may carry OSPF settings.
pub open spec fn is_link_type(t: IfType) -> bool {
    t == IfType::Ethernet || t == IfType::Vlan
}

/// A well-formed interface: a name of the interface-name form; address
/// blocks of either family, where a VTEP has exactly one, an IPv4 /32; a
/// VLAN id, from 1 to 4094, exactly on VLAN interfaces; a MAC address
/// exactly on Ethernet and VLAN interfaces; OSPF settings only there; the
/// fabric role; and no system name.
pub open spec fn interface_ok(i: Interface) -> bool {
    &&& is_if_name(i.name@)
    &&& forall|k: int|
        0 <= k < i.ipaddrs@.len() ==> is_v4_cidr(#[trigger] i.ipaddrs@[k]@) || is_v6_cidr(
            i.ipaddrs@[k]@,
        )
    &&& i.if_type == IfType::Vtep ==> i.ipaddrs@.len() == 1 && is_v4_block(i.ipaddrs@[0]@, 32)
    &&& (i.vlan is Some <==> i.if_type == IfType::Vlan)
    &&& i.vlan matches Some(v) ==> 1 <= v <= 4094
    &&& (i.macaddr is Some <==> is_link_type(i.if_type))
    &&& i.macaddr matches Some(m) ==> is_mac(m@)
    &&& i.ospf is Some ==> is_link_type(i.if_type)
    &&& i.ospf matches Some(o) ==> ospf_interface_ok(o)
    &&& i.role == IfRole::Fabric
    &&& i.system_name is None
}

impl OspfInterface {
    pub fn generate<D: Driver>(d: &mut D) -> (r: Option<Self>)
        ensures
            answered(*old(d), *final(d), r),
            r matches Some(o) ==> ospf_interface_ok(o),
            r matches Some(o) ==> {
                let w = drew(*old(d), *final(d));
                &&& w.len() == 4
                &&& o.area@ == ipv4_text(fit(w[0] as nat, 0x1000_0000, 0xffff_fffe) as u32)
                &&& o.passive == (w[1] % 2 == 1)
                &&& o.cost == w[2] % 0x1_0000_0000
                &&& o.network_type == Some(ospf_network_type_for(fit(w[3] as nat, 0, 3)))
            },
    {
        let ghost d0 = *d;
        let area = Ipv4AddrString::generate(d)?.0;
        let ghost d1 = *d;
        let passive = gen_bool(d)?;
        let ghost d2 = *d;
        let cost = gen_any_u32(d)?;
        let ghost d3 = *d;
        let network_type = OspfNetworkType::generate(d)?;
        assert(drew(d0, *d) =~= drew(d0, d1) + drew(d1, d2) + drew(d2, d3) + drew(d3, *d));
        Some(OspfInterface { passive, area, cost, network_type: Some(network_type) })
    }
}

impl OspfConfig {
    pub fn generate<D: Driver>(d: &mut D) -> (r: Option<Self>)
        ensures
            answered(*old(d), *final(d), r),
            r matches Some(o) ==> ospf_config_ok(o),
            r matches Some(o) ==> {
                let w = drew(*old(d), *final(d));
                &&& w.len() >= 2
                &&& o.router_id@ == ipv4_text(fit(w[0] as nat, 0x1000_0000, 0xffff_fffe) as u32)
                &&& (o.vrf is Some <==> w[1] % 2 == 1)
            },
    {
        let ghost d0 = *d;
        let router_id = Ipv4AddrString::generate(d)?.0;
        let ghost d1 = *d;
        let vrf = if gen_bool(d)? {
            Some(LinuxIfName::generate(d)?.0)
        } else {
            None
        };
        assert(drew(d0, *d)[0] == drew(d0, d1)[0]);
        assert(drew(d0, *d)[1] == drew(d1, *d)[0]);
        Some(OspfConfig { router_id, vrf })
    }
}

impl Interface {
    pub fn generate<D: Driver>(d: &mut D) -> (r: Option<Self>)
        ensures
            answered(*old(d), *final(d), r),
            r matches Some(i) ==> interface_ok(i),
            r matches Some(i) ==> i.if_type == if_type_for(fit(word(*old(d), *final(d), 0), 0, 3)),
    {
        let if_type = IfType::generate(d)?;
        let ghost d1 = *d;
        let with_addrs = gen_bool(d)?;
        let ipaddrs: Vec<String> = if with_addrs || if_type == IfType::Vtep {
            match if_type {
                IfType::Vtep => {
                    let mut addr = Ipv4AddrString::generate(d)?.0;
                    let ghost a = choose|a: u32| addr@ == ipv4_text(a);
                    push_char(&mut addr, '/');
                    push_digits(&mut addr, 32, 10);
                    proof {
                        assert(addr@ =~= v4_cidr_text(a, 32));
                        assert(a & u32::MAX == a) by (bit_vector);
                        assert(u32::MAX << 0u32 == u32::MAX) by (bit_vector);
                        assert(a & v4_net_mask(32) == a);
                        assert(is_v4_block(addr@, 32));
                    }
                    let mut v: Vec<String> = Vec::new();
                    v.push(addr);
                    v
                },
                _ => {
                    let count_v4 = gen_u16(d, 0, 10)?;
                    let count_v6 = gen_u16(d, 0, 10)?;
                    let mut addrs_v4 = UniqueV4InterfaceAddressGenerator::new(count_v4).generate(
                        d,
                    )?;
                    let mut addrs_v6 = UniqueV6InterfaceAddressGenerator::new(count_v6).generate(
                        d,
                    )?;
                    let ghost t4 = texts(addrs_v4@);
                    let ghost t6 = texts(addrs_v6@);
                    let ghost v4_len = addrs_v4@.len();
                    addrs_v4.append(&mut addrs_v6);
                    proof {
                        assert forall|k: int| 0 <= k < addrs_v4@.len() implies is_v4_cidr(
                            #[trigger] addrs_v4@[k]@,
                        ) || is_v6_cidr(addrs_v4@[k]@) by {
                            if k < v4_len {
                                assert(addrs_v4@[k]@ == t4[k]);
                            } else {
                                assert(addrs_v4@[k]@ == t6[k - v4_len]);
                            }
                        }
                    }
                    addrs_v4
                },
            }
        } else {
            Vec::new()
        };
        let vlan = match if_type {
            IfType::Vlan => Some(gen_u16(d, 1, 4096 - 2)? as u32),
            _ => None,
        };
        let macaddr = match if_type {
            IfType::Ethernet | IfType::Vlan => Some(MacAddrString::generate(d)?.0),
            _ => None,
        };
        let ospf = match if_type {
            IfType::Ethernet | IfType::Vlan => {
                if gen_bool(d)? {
                    Some(OspfInterface::generate(d)?)
                } else {
                    None
                }
            },
            _ => None,
        };
        let name = LinuxIfName::generate(d)?.0;
        assert(drew(*old(d), *d)[0] == drew(*old(d), d1)[0]);
        Some(
            Interface {
                name,
                ipaddrs,
                if_type,
                role: IfRole::Fabric,
                vlan,
                macaddr,
                ospf,
                system_name: None,
            },
        )
    }
}

} // verus!
