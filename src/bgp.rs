//! BGP settings: address families, neighbors and the router configuration.

use vstd::prelude::*;
use crate::config::{
    bgp_af_for,
    BgpAddressFamilyIPv4, BgpAddressFamilyIPv6, BgpAddressFamilyL2vpnEvpn, BgpAf, BgpNeighbor,
    BgpNeighborUpdateSource, RouteMap, RouterConfig, UpdateSource,
};
use crate::driver::{
    Driver, answered, drew, drew_words, extends, fit, word, word_pair, gen_any_u32, gen_bool, gen_u16, gen_u8,
    gen_usize,
};
use crate::support::{
    ALPHA_NUMERIC_CHARS, CidrListGenerator, CidrString, IpAddrString, Ipv4AddrString,
    K8sObjectNameString, LinuxIfName, UniqueV4CidrGenerator, UniqueV6CidrGenerator, choose_one,
    gen_from_chars, is_if_name, is_ipv4_text, is_ipv6_text, texts, unique_v4_blocks,
    unique_v6_blocks, v4_walk_texts, v6_walk_texts,
};
use crate::text::{dec, decimal_string};

verus! {

/// `t` is the decimal text of an unsigned 32-bit number.
pub open spec fn is_u32_text(t: Seq<char>) -> bool {
    exists|n: u32| t == dec(n as nat)
}

/// `t` is the text of an address of either family.
pub open spec fn is_ip_text(t: Seq<char>) -> bool {
    is_ipv4_text(t) || is_ipv6_text(t)
}

/// No element occurs twice.
pub open spec fn no_duplicates<T>(s: Seq<T>) -> bool {
    forall|i: int, j: int| 0 <= i < j < s.len() ==> s[i] != s[j]
}

/// An IPv4 address family that advertises up to ten unique blocks of one
/// prefix length from 1 to 32.
pub open spec fn af_ipv4_ok(f: BgpAddressFamilyIPv4) -> bool {
    exists|c: nat, m: nat|
        c <= 10 && 1 <= m <= 32 && #[trigger] unique_v4_blocks(texts(f.networks@), c, m)
}

/// An IPv6 address family that advertises up to ten unique blocks of one
/// prefix length from 1 to 128.
pub open spec fn af_ipv6_ok(f: BgpAddressFamilyIPv6) -> bool {
    exists|c: nat, m: nat|
        c <= 10 && 1 <= m <= 128 && #[trigger] unique_v6_blocks(texts(f.networks@), c, m)
}

/// Exactly one source: an address, or an interface name.
pub open spec fn update_source_ok(u: BgpNeighborUpdateSource) -> bool {
    match u.source {
        Some(UpdateSource::Address(a)) => is_ip_text(a@),
        Some(UpdateSource::Interface(n)) => is_if_name(n@),
        None => false,
    }
}

/// A well-formed neighbor: an address, the decimal text of a 32-bit AS
/// number, at most two activated families with none twice, and an update
/// source.
pub open spec fn neighbor_ok(n: BgpNeighbor) -> bool {
    &&& is_ip_text(n.address@)
    &&& is_u32_text(n.remote_asn@)
    &&& n.af_activate@.len() <= 2
    &&& no_duplicates(n.af_activate@)
    &&& n.update_source matches Some(u) && update_source_ok(u)
}

/// A well-formed router: the decimal text of a 32-bit AS number, an IPv4
/// router id, up to ten well-formed neighbors, well-formed address families
/// where present, and no route policies.
pub open spec fn router_ok(r: RouterConfig) -> bool {
    &&& is_u32_text(r.asn@)
    &&& is_ipv4_text(r.router_id@)
    &&& r.neighbors@.len() <= 10
    &&& forall|i: int| 0 <= i < r.neighbors@.len() ==> neighbor_ok(#[trigger] r.neighbors@[i])
    &&& r.ipv4_unicast matches Some(f) ==> af_ipv4_ok(f)
    &&& r.ipv6_unicast matches Some(f) ==> af_ipv6_ok(f)
    &&& r.route_maps@.len() == 0
}

/// The decimal text of an AS number.
pub fn asn_string(asn: u32) -> (r: String)
    ensures
        r@ == dec(asn as nat),
        is_u32_text(r@),
{
    decimal_string(asn as u64)
}

impl BgpAddressFamilyIPv4 {
    pub fn generate<D: Driver>(d: &mut D) -> (r: Option<Self>)
        ensures
            answered(*old(d), *final(d), r),
            r matches Some(f) ==> af_ipv4_ok(f),
            r matches Some(f) ==> f.redistribute_connected == (word(*old(d), *final(d), 2) % 2 == 1)
                && f.redistribute_static == (word(*old(d), *final(d), 3) % 2 == 1) && texts(
                f.networks@,
            ) == v4_walk_texts(
                fit(word(*old(d), *final(d), 0), 0, 10),
                fit(word(*old(d), *final(d), 1), 1, 32),
                fit(word(*old(d), *final(d), 4), 0x1000_0000, u32::MAX as nat) as u32,
            ),
    {
        let count = gen_u16(d, 0, 10)?;
        let mask = gen_u8(d, 1, 32)?;
        let v4_prefix_generator = UniqueV4CidrGenerator::new(count, mask);
        let redistribute_connected = gen_bool(d)?;
        let redistribute_static = gen_bool(d)?;
        let ghost d4 = *d;
        let networks = v4_prefix_generator.generate(d)?;
        proof {
            let w = drew(*old(d), *d);
            assert(w =~= drew(*old(d), d4) + drew(d4, *d));
        }
        let f = BgpAddressFamilyIPv4 { redistribute_connected, redistribute_static, networks };
        assert(unique_v4_blocks(texts(f.networks@), count as nat, mask as nat));
        Some(f)
    }
}

impl BgpAddressFamilyIPv6 {
    pub fn generate<D: Driver>(d: &mut D) -> (r: Option<Self>)
        ensures
            answered(*old(d), *final(d), r),
            r matches Some(f) ==> af_ipv6_ok(f),
            r matches Some(f) ==> f.redistribute_connected == (word(*old(d), *final(d), 2) % 2 == 1)
                && f.redistribute_static == (word(*old(d), *final(d), 3) % 2 == 1) && texts(
                f.networks@,
            ) == v6_walk_texts(
                fit(word(*old(d), *final(d), 0), 0, 10),
                fit(word(*old(d), *final(d), 1), 1, 128),
                fit(word_pair(*old(d), *final(d), 4), 1, u128::MAX as nat) as u128,
            ),
    {
        let count = gen_u16(d, 0, 10)?;
        let mask = gen_u8(d, 1, 128)?;
        let v6_prefix_generator = UniqueV6CidrGenerator::new(count, mask);
        let redistribute_connected = gen_bool(d)?;
        let redistribute_static = gen_bool(d)?;
        let ghost d4 = *d;
        let networks = v6_prefix_generator.generate(d)?;
        proof {
            let w = drew(*old(d), *d);
            assert(w =~= drew(*old(d), d4) + drew(d4, *d));
        }
        let f = BgpAddressFamilyIPv6 { redistribute_connected, redistribute_static, networks };
        assert(unique_v6_blocks(texts(f.networks@), count as nat, mask as nat));
        Some(f)
    }
}

impl BgpAddressFamilyL2vpnEvpn {
    pub fn generate<D: Driver>(d: &mut D) -> (r: Option<Self>)
        ensures
            answered(*old(d), *final(d), r),
    {
        Some(BgpAddressFamilyL2vpnEvpn { advertise_all_vni: gen_bool(d)? })
    }
}

impl UpdateSource {
    pub fn generate<D: Driver>(d: &mut D) -> (r: Option<Self>)
        ensures
            answered(*old(d), *final(d), r),
            r matches Some(s) ==> update_source_ok(BgpNeighborUpdateSource { source: Some(s) }),
            r matches Some(s) ==> ((s is Address) <==> word(*old(d), *final(d), 0) % 2 == 1),
    {
        let by_address = gen_bool(d)?;
        let ghost d1 = *d;
        assert(drew(*old(d), d1).len() == 1);
        if by_address {
            Some(UpdateSource::Address(IpAddrString::generate(d)?.0))
        } else {
            Some(UpdateSource::Interface(LinuxIfName::generate(d)?.0))
        }
    }
}

impl BgpNeighborUpdateSource {
    pub fn generate<D: Driver>(d: &mut D) -> (r: Option<Self>)
        ensures
            answered(*old(d), *final(d), r),
            r matches Some(u) ==> update_source_ok(u),
    {
        Some(BgpNeighborUpdateSource { source: Some(UpdateSource::generate(d)?) })
    }
}

/// `af` occurs in `afs`.
fn af_contains(afs: &Vec<BgpAf>, af: BgpAf) -> (r: bool)
    ensures
        r == afs@.contains(af),
{
    let mut i: usize = 0;
    while i < afs.len()
        invariant
            i <= afs@.len(),
            forall|k: int| 0 <= k < i ==> afs@[k] != af,
        decreases afs@.len() - i,
    {
        if afs[i] == af {
            return true;
        }
        i = i + 1;
    }
    false
}

impl BgpNeighbor {
    pub fn generate<D: Driver>(d: &mut D) -> (r: Option<Self>)
        ensures
            answered(*old(d), *final(d), r),
            r matches Some(n) ==> neighbor_ok(n),
            r matches Some(n) ==> {
                let w = drew(*old(d), *final(d));
                let naf = fit(w[0] as nat, 0, 2);
                &&& w.len() > naf
                &&& forall|a: BgpAf|
                    n.af_activate@.contains(a) <==> exists|j: int|
                        1 <= j <= naf && a == bgp_af_for(fit(#[trigger] w[j] as nat, 0, 2))
            },
    {
        let naf = gen_usize(d, 0, 2)?;
        let ghost d1 = *d;
        let mut af_activate: Vec<BgpAf> = Vec::new();
        let mut i: usize = 0;
        while i < naf
            invariant
                old(d).inexhaustible() ==> d.inexhaustible(),
                extends(d.drawn(), old(d).drawn()),
                d.refused() == old(d).refused(),
                i <= naf <= 2,
                af_activate@.len() <= i,
                no_duplicates(af_activate@),
                extends(d.drawn(), d1.drawn()),
                drew(d1, *d).len() == i,
                forall|a: BgpAf|
                    af_activate@.contains(a) <==> exists|j: int|
                        0 <= j < i && a == bgp_af_for(fit(#[trigger] drew(d1, *d)[j] as nat, 0, 2)),
            decreases naf - i,
        {
            let ghost dp = *d;
            let ghost prev = af_activate@;
            let af = BgpAf::generate(d)?;
            if !af_contains(&af_activate, af) {
                af_activate.push(af);
            }
            proof {
                assert(drew(d1, *d) =~= drew(d1, dp).push(drew(dp, *d)[0]));
                assert forall|a: BgpAf| af_activate@.contains(a) <==> exists|j: int|
                    0 <= j < i + 1 && a == bgp_af_for(fit(#[trigger] drew(d1, *d)[j] as nat, 0, 2)) by {
                    if af_activate@.contains(a) {
                        let k = choose|k: int| 0 <= k < af_activate@.len() && af_activate@[k] == a;
                        if k < prev.len() {
                            assert(prev[k] == a);
                            assert(prev.contains(a));
                            let j = choose|j: int|
                                0 <= j < i && a == bgp_af_for(fit(#[trigger] drew(d1, dp)[j] as nat, 0, 2));
                            assert(drew(d1, *d)[j] == drew(d1, dp)[j]);
                        } else {
                            assert(drew(d1, *d)[i as int] == drew(dp, *d)[0]);
                        }
                    }
                    if exists|j: int|
                        0 <= j < i + 1 && a == bgp_af_for(fit(#[trigger] drew(d1, *d)[j] as nat, 0, 2)) {
                        let j = choose|j: int|
                            0 <= j < i + 1 && a == bgp_af_for(fit(#[trigger] drew(d1, *d)[j] as nat, 0, 2));
                        if j < i {
                            assert(drew(d1, *d)[j] == drew(d1, dp)[j]);
                            assert(prev.contains(a));
                            let k = choose|k: int| 0 <= k < prev.len() && prev[k] == a;
                            assert(af_activate@[k] == a);
                        } else {
                            assert(a == af);
                            if !prev.contains(af) {
                                assert(af_activate@[prev.len() as int] == af);
                            } else {
                                let k = choose|k: int| 0 <= k < prev.len() && prev[k] == a;
                                assert(af_activate@[k] == a);
                            }
                        }
                    }
                }
            }
            i = i + 1;
        }
        let ghost d2 = *d;
        let address = IpAddrString::generate(d)?.0;
        let remote_asn = asn_string(gen_any_u32(d)?);
        let update_source = BgpNeighborUpdateSource::generate(d)?;
        proof {
            let w = drew(*old(d), *d);
            assert(w =~= drew(*old(d), d1) + drew(d1, d2) + drew(d2, *d));
            assert forall|j: int| 1 <= j <= naf implies w[j] == drew(d1, d2)[j - 1] by {}
            assert forall|a: BgpAf| af_activate@.contains(a) <==> exists|j: int|
                1 <= j <= naf && a == bgp_af_for(fit(#[trigger] w[j] as nat, 0, 2)) by {
                if af_activate@.contains(a) {
                    let j = choose|j: int|
                        0 <= j < naf && a == bgp_af_for(fit(#[trigger] drew(d1, d2)[j] as nat, 0, 2));
                    assert(w[j + 1] == drew(d1, d2)[j]);
                }
                if exists|j: int| 1 <= j <= naf && a == bgp_af_for(fit(#[trigger] w[j] as nat, 0, 2)) {
                    let j = choose|j: int|
                        1 <= j <= naf && a == bgp_af_for(fit(#[trigger] w[j] as nat, 0, 2));
                    assert(drew(d1, d2)[j - 1] == w[j]);
                }
            }
        }
        Some(BgpNeighbor { address, remote_asn, af_activate, update_source: Some(update_source) })
    }
}

impl RouteMap {
    /// A route policy. Routers are not given any yet; this stands ready for
    /// when they are.
    pub fn generate<D: Driver>(d: &mut D) -> (r: Option<Self>)
        ensures
            answered(*old(d), *final(d), r),
            r matches Some(m) ==> m.match_prefix_lists@.len() == fit(word(*old(d), *final(d), 0), 0, 10),
    {
        proof {
            crate::support::lemma_alphabet_lengths();
        }
        let nprefixes = gen_usize(d, 0, 10)?;
        let ghost d1 = *d;
        let mut match_prefix_lists: Vec<String> = Vec::new();
        let mut i: usize = 0;
        while i < nprefixes
            invariant
                old(d).inexhaustible() ==> d.inexhaustible(),
                extends(d.drawn(), old(d).drawn()),
                d.refused() == old(d).refused(),
                i <= nprefixes,
                match_prefix_lists@.len() == i,
                extends(d.drawn(), d1.drawn()),
                extends(d1.drawn(), old(d).drawn()),
                drew(*old(d), d1).len() == 1,
            decreases nprefixes - i,
        {
            match_prefix_lists.push(CidrString::generate(d)?.0);
            i = i + 1;
        }
        let name = K8sObjectNameString::generate(d)?.0;
        let action = gen_from_chars(d, ALPHA_NUMERIC_CHARS, 0, 16)?;
        let sequence = gen_any_u32(d)?;
        assert(drew(*old(d), *d)[0] == drew(*old(d), d1)[0]);
        Some(RouteMap { name, match_prefix_lists, action, sequence })
    }
}

impl RouterConfig {
    pub fn generate<D: Driver>(d: &mut D) -> (r: Option<Self>)
        ensures
            answered(*old(d), *final(d), r),
            r matches Some(c) ==> router_ok(c),
            r matches Some(c) ==> c.neighbors@.len() == fit(word(*old(d), *final(d), 0), 0, 10),
    {
        let nneighbors = gen_usize(d, 0, 10)?;
        let ghost d1 = *d;
        let ipv4_family = BgpAddressFamilyIPv4::generate(d)?;
        let ipv6_family = BgpAddressFamilyIPv6::generate(d)?;
        let l2vpn_family = BgpAddressFamilyL2vpnEvpn::generate(d)?;
        let mut v4_choices: Vec<Option<BgpAddressFamilyIPv4>> = Vec::new();
        v4_choices.push(Some(ipv4_family));
        v4_choices.push(None);
        let ipv4_unicast = choose_one(d, v4_choices)?;
        let mut v6_choices: Vec<Option<BgpAddressFamilyIPv6>> = Vec::new();
        v6_choices.push(Some(ipv6_family));
        v6_choices.push(None);
        let ipv6_unicast = choose_one(d, v6_choices)?;
        let mut evpn_choices: Vec<Option<BgpAddressFamilyL2vpnEvpn>> = Vec::new();
        evpn_choices.push(Some(l2vpn_family));
        evpn_choices.push(None);
        let l2vpn_evpn = choose_one(d, evpn_choices)?;
        let asn = asn_string(gen_any_u32(d)?);
        // Router ids are IPv4 only: the target system takes no IPv6 router id.
        let router_id = Ipv4AddrString::generate(d)?.0;
        let mut neighbors: Vec<BgpNeighbor> = Vec::new();
        let mut i: usize = 0;
        while i < nneighbors
            invariant
                old(d).inexhaustible() ==> d.inexhaustible(),
                extends(d.drawn(), old(d).drawn()),
                d.refused() == old(d).refused(),
                i <= nneighbors <= 10,
                extends(d.drawn(), d1.drawn()),
                extends(d1.drawn(), old(d).drawn()),
                drew(*old(d), d1).len() == 1,
                nneighbors == fit(word(*old(d), d1, 0), 0, 10),
                neighbors@.len() == i,
                forall|k: int| 0 <= k < neighbors@.len() ==> neighbor_ok(#[trigger] neighbors@[k]),
            decreases nneighbors - i,
        {
            let n = BgpNeighbor::generate(d)?;
            neighbors.push(n);
            i = i + 1;
        }
        assert(drew(*old(d), *d)[0] == drew(*old(d), d1)[0]);
        // Route policies stay empty until the target system supports them.
        let route_maps: Vec<RouteMap> = Vec::new();
        Some(
            RouterConfig {
                asn,
                router_id,
                neighbors,
                ipv4_unicast,
                ipv6_unicast,
                l2vpn_evpn,
                route_maps,
            },
        )
    }
}

} // verus!
