use std::collections::HashSet;

use gateway_config::config::{
    BgpAddressFamilyIPv4, BgpAddressFamilyIPv6, BgpNeighbor, BgpNeighborUpdateSource, Expose,
    IfType, Interface, OspfConfig, OspfInterface, Overlay, PeeringAs, PeeringAsRule,
    PeeringEntryFor, PeeringIPs, PeeringIpsRule, RouterConfig, Underlay, VpcPeering, Vrf,
    get_peering_as_ip, get_peering_ip,
};
use gateway_config::driver::SplitMix64;
use gateway_config::peering_as::{V4PeeringAs, V6PeeringAs};
use gateway_config::peering_ips::{V4PeeringIPs, V6PeeringIPs};
use gateway_config::support::{CidrListGenerator, UniqueV4CidrGenerator, UniqueV6CidrGenerator};

const ITERATIONS: u64 = 1000;

fn is_ipv4(s: &str) -> bool {
    let parts: Vec<&str> = s.split('.').collect();
    parts.len() == 4
        && parts.iter().all(|p| {
            !p.is_empty()
                && p.len() <= 3
                && p.chars().all(|c| c.is_ascii_digit())
                && (p.len() == 1 || !p.starts_with('0'))
                && p.parse::<u8>().is_ok()
        })
}

fn hex_groups(s: &str) -> Option<usize> {
    if s.is_empty() {
        return Some(0);
    }
    let groups: Vec<&str> = s.split(':').collect();
    if groups
        .iter()
        .all(|g| !g.is_empty() && g.len() <= 4 && g.chars().all(|c| c.is_ascii_hexdigit()))
    {
        Some(groups.len())
    } else {
        None
    }
}

fn is_ipv6(s: &str) -> bool {
    match s.split_once("::") {
        Some((a, b)) => {
            if b.contains("::") {
                return false;
            }
            match (hex_groups(a), hex_groups(b)) {
                (Some(x), Some(y)) => x + y <= 7,
                _ => false,
            }
        }
        None => hex_groups(s) == Some(8),
    }
}

/// Whether the block is IPv4, and its prefix length.
fn parse_cidr(cidr: &str) -> Result<(bool, u8), String> {
    let (ip, mask) = cidr.split_once('/').ok_or_else(|| format!("no mask: {cidr}"))?;
    let mask = mask.parse::<u8>().map_err(|_| format!("bad mask: {cidr}"))?;
    if is_ipv4(ip) {
        if mask > 32 {
            return Err(format!("mask too long: {cidr}"));
        }
        Ok((true, mask))
    } else if is_ipv6(ip) {
        if mask > 128 {
            return Err(format!("mask too long: {cidr}"));
        }
        Ok((false, mask))
    } else {
        Err(format!("bad address: {cidr}"))
    }
}

fn ip_type_same(families: &[bool]) -> bool {
    families.windows(2).all(|w| w[0] == w[1])
}

#[test]
fn test_bgp_neighbor_update_source() {
    for seed in 0..ITERATIONS {
        let mut d = SplitMix64::new(seed);
        let source = BgpNeighborUpdateSource::generate(&mut d).unwrap();
        assert!(source.source.is_some());
    }
}

#[test]
fn test_bgp_neighbor() {
    let mut some_afs = false;
    for seed in 0..ITERATIONS {
        let mut d = SplitMix64::new(seed);
        let bgp_neighbor = BgpNeighbor::generate(&mut d).unwrap();
        assert!(bgp_neighbor.remote_asn.parse::<u32>().is_ok());
        if !bgp_neighbor.af_activate.is_empty() {
            some_afs = true;
        }
    }
    assert!(some_afs);
}

#[test]
fn test_router_config() {
    for seed in 0..ITERATIONS {
        let mut d = SplitMix64::new(seed);
        let router_config = RouterConfig::generate(&mut d).unwrap();
        assert!(router_config.asn.parse::<u32>().is_ok());
    }
}

#[test]
fn test_bgp_address_family_ipv4() {
    let mut some_networks = false;
    for seed in 0..ITERATIONS {
        let mut d = SplitMix64::new(seed);
        let bgp_address_family_ipv4 = BgpAddressFamilyIPv4::generate(&mut d).unwrap();
        if !bgp_address_family_ipv4.networks.is_empty() {
            some_networks = true;
            let mut seen = HashSet::new();
            for network in &bgp_address_family_ipv4.networks {
                assert!(seen.insert(network), "Duplicate network found: {network}");
            }
        }
    }
    assert!(some_networks);
}

#[test]
fn test_bgp_address_family_ipv6() {
    let mut some_networks = false;
    for seed in 0..ITERATIONS {
        let mut d = SplitMix64::new(seed);
        let bgp_address_family_ipv6 = BgpAddressFamilyIPv6::generate(&mut d).unwrap();
        if !bgp_address_family_ipv6.networks.is_empty() {
            some_networks = true;
            let mut seen = HashSet::new();
            for network in &bgp_address_family_ipv6.networks {
                assert!(seen.insert(network), "Duplicate network found: {network}");
            }
        }
    }
    assert!(some_networks);
}

#[test]
fn test_expose() {
    let mut more_than_one = false;
    for seed in 0..ITERATIONS {
        let mut d = SplitMix64::new(seed);
        let expose = Expose::generate(&mut d).unwrap();
        assert!(!expose.ips.is_empty());
        if expose.ips.len() > 1 {
            more_than_one = true;
        }
        assert!(ip_type_same(
            expose
                .ips
                .iter()
                .map(|ip| parse_cidr(get_peering_ip(ip).unwrap()).unwrap().0)
                .collect::<Vec<_>>()
                .as_slice()
        ));
        assert!(ip_type_same(
            expose
                .as_rules
                .iter()
                .map(|r| parse_cidr(get_peering_as_ip(r).unwrap()).unwrap().0)
                .collect::<Vec<_>>()
                .as_slice()
        ));
    }
    assert!(more_than_one);
}

#[test]
fn test_overlay() {
    for seed in 0..ITERATIONS {
        let mut d = SplitMix64::new(seed);
        // Other tests cover the interesting parts; this one makes sure that generation does not panic.
        let _overlay = Overlay::generate(&mut d);
    }
}

#[test]
fn test_underlay() {
    for seed in 0..ITERATIONS {
        let mut d = SplitMix64::new(seed);
        // Other tests cover the interesting parts; this one makes sure that generation does not panic.
        let _underlay = Underlay::generate(&mut d);
    }
}

fn as_rule_block(rule: &PeeringAsRule) -> &str {
    match rule {
        PeeringAsRule::Cidr(cidr) | PeeringAsRule::Not(cidr) => cidr,
    }
}

fn ips_rule_block(rule: &PeeringIpsRule) -> &str {
    match rule {
        PeeringIpsRule::Cidr(cidr) | PeeringIpsRule::Not(cidr) => cidr,
    }
}

#[test]
fn test_peering_as() {
    for seed in 0..ITERATIONS {
        let mut d = SplitMix64::new(seed);
        let peering_as = PeeringAs::generate(&mut d).unwrap();
        assert!(peering_as.rule.is_some());
        let rule = peering_as.rule.as_ref().unwrap();
        assert!(parse_cidr(as_rule_block(rule)).is_ok());
    }
}

#[test]
fn test_v4_peering_as() {
    for seed in 0..ITERATIONS {
        let mut d = SplitMix64::new(seed);
        let v4_peering_as = V4PeeringAs::generate(&mut d).unwrap();
        assert!(v4_peering_as.0.rule.is_some());
        let rule = v4_peering_as.0.rule.as_ref().unwrap();
        let (is_v4, mask) = parse_cidr(as_rule_block(rule)).unwrap();
        assert!(is_v4);
        assert!(mask <= 32);
    }
}

#[test]
fn test_v6_peering_as() {
    for seed in 0..ITERATIONS {
        let mut d = SplitMix64::new(seed);
        let v6_peering_as = V6PeeringAs::generate(&mut d).unwrap();
        assert!(v6_peering_as.0.rule.is_some());
        let rule = v6_peering_as.0.rule.as_ref().unwrap();
        let (is_v4, mask) = parse_cidr(as_rule_block(rule)).unwrap();
        assert!(!is_v4);
        assert!(mask <= 128);
    }
}

#[test]
fn test_peering_ips() {
    for seed in 0..ITERATIONS {
        let mut d = SplitMix64::new(seed);
        let peering_ips = PeeringIPs::generate(&mut d).unwrap();
        assert!(peering_ips.rule.is_some());
        let rule = peering_ips.rule.as_ref().unwrap();
        assert!(parse_cidr(ips_rule_block(rule)).is_ok());
    }
}

#[test]
fn test_v4_peering_ips() {
    for seed in 0..ITERATIONS {
        let mut d = SplitMix64::new(seed);
        let v4_peering_ips = V4PeeringIPs::generate(&mut d).unwrap();
        assert!(v4_peering_ips.0.rule.is_some());
        let rule = v4_peering_ips.0.rule.as_ref().unwrap();
        let (is_v4, mask) = parse_cidr(ips_rule_block(rule)).unwrap();
        assert!(is_v4);
        assert!(mask <= 32);
    }
}

#[test]
fn test_v6_peering_ips() {
    for seed in 0..ITERATIONS {
        let mut d = SplitMix64::new(seed);
        let v6_peering_ips = V6PeeringIPs::generate(&mut d).unwrap();
        assert!(v6_peering_ips.0.rule.is_some());
        let rule = v6_peering_ips.0.rule.as_ref().unwrap();
        let (is_v4, mask) = parse_cidr(ips_rule_block(rule)).unwrap();
        assert!(!is_v4);
        assert!(mask <= 128);
    }
}

#[test]
fn test_ospf_interface() {
    for seed in 0..ITERATIONS {
        let mut d = SplitMix64::new(seed);
        let intf = OspfInterface::generate(&mut d).unwrap();
        assert!(is_ipv4(&intf.area));
    }
}

#[test]
fn test_ospf_config() {
    for seed in 0..ITERATIONS {
        let mut d = SplitMix64::new(seed);
        let config = OspfConfig::generate(&mut d).unwrap();
        assert!(is_ipv4(&config.router_id));
    }
}

#[test]
fn test_interface() {
    for seed in 0..ITERATIONS {
        let mut d = SplitMix64::new(seed);
        let intf = Interface::generate(&mut d).unwrap();
        assert!(
            intf.name.len() <= 16,
            "Interface name too long: {} len: {}",
            intf.name,
            intf.name.len()
        );
        assert!(intf.ipaddrs.iter().all(|ifaddr| {
            let (ip, _mask) = ifaddr.split_once('/').unwrap();
            is_ipv4(ip) || is_ipv6(ip)
        }));
        if intf.if_type == IfType::Vtep {
            assert!(intf.ipaddrs.len() == 1);
            let (ip, mask) = intf.ipaddrs[0].split_once('/').unwrap();
            assert!(is_ipv4(ip));
            assert_eq!(mask, "32");
        }
        assert!(intf.macaddr.is_some() || intf.if_type != IfType::Ethernet);
        assert!(intf.vlan.is_some() || intf.if_type != IfType::Vlan);
        assert!(intf.ospf.is_none() || intf.if_type != IfType::Loopback);
        assert!(intf.ospf.is_none() || intf.if_type != IfType::Vtep);
        assert!(intf.system_name.is_none());
    }
}

#[test]
fn test_unique_v4_cidr_generator() {
    for mask in 0..=32 {
        let generator = UniqueV4CidrGenerator::new(10, mask);
        for seed in 0..ITERATIONS {
            let mut d = SplitMix64::new(seed);
            let cidrs = generator.generate(&mut d).unwrap();
            let mut seen = HashSet::new();
            for cidr in &cidrs {
                assert!(seen.insert(cidr), "Duplicate CIDR found: {cidr}");
            }
            assert!(!cidrs.is_empty(), "No CIDRs generated for mask={mask}, count=10");
            assert!(cidrs.iter().all(|cidr| {
                let (ip, mask) = cidr.split_once('/').unwrap();
                assert!(mask.parse::<u8>().unwrap() <= 32);
                is_ipv4(ip)
            }));
        }
    }
}

#[test]
fn test_unique_v6_cidr_generator() {
    for mask in 0..=128 {
        let generator = UniqueV6CidrGenerator::new(10, mask);
        for seed in 0..ITERATIONS {
            let mut d = SplitMix64::new(seed);
            let cidrs = generator.generate(&mut d).unwrap();
            let mut seen = HashSet::new();
            assert!(!cidrs.is_empty(), "No CIDRs generated for mask={mask}, count=10");
            for cidr in &cidrs {
                assert!(seen.insert(cidr), "Duplicate CIDR found: {cidr}");
            }
            assert!(cidrs.iter().all(|cidr| {
                let (ip, mask) = cidr.split_once('/').unwrap();
                assert!(mask.parse::<u8>().unwrap() <= 128);
                is_ipv6(ip)
            }));
        }
    }
}

#[test]
fn test_peering_entry_for() {
    for seed in 0..ITERATIONS {
        let mut d = SplitMix64::new(seed);
        let peering_entry_for = PeeringEntryFor::generate(&mut d).unwrap();
        assert!(!peering_entry_for.vpc.is_empty());
        assert!(!peering_entry_for.expose.is_empty());
    }
}

#[test]
fn test_vpc_peering() {
    for seed in 0..ITERATIONS {
        let mut d = SplitMix64::new(seed);
        let vpc_peering = VpcPeering::generate(&mut d).unwrap();
        assert!(!vpc_peering.name.is_empty());
        assert!(!vpc_peering.entries.is_empty());
    }
}

#[test]
fn test_vrf() {
    let mut some_interfaces = false;
    let mut some_router = false;
    for seed in 0..ITERATIONS {
        let mut d = SplitMix64::new(seed);
        let vrf = Vrf::generate(&mut d).unwrap();
        assert!(!vrf.name.is_empty());
        some_router = some_router || vrf.router.is_some();
        some_interfaces = some_interfaces || !vrf.interfaces.is_empty();
    }
    assert!(some_router);
    assert!(some_interfaces);
}
