//! The overlay, the underlay, and the whole gateway configuration.

use vstd::prelude::*;
use crate::config::{
    packet_driver_for, Device, GatewayConfig, Overlay, Underlay, Vpc, VpcPeering, Vrf,
};
use crate::device::device_ok;
use crate::driver::{Driver, answered, drew, drew_words, extends, fit, word, gen_i64, gen_usize};
use crate::support::{ALPHA_NUMERIC_CHARS, drawn_from, lemma_digit_in_alnum};
use crate::text::{dec, dec5, push_digits, zero_padded5};
use crate::vpc::{vpc_ok, vpc_peering_ok};
use crate::vrf::{lemma_vrf_follows_after, vrf_follows, vrf_ok};
use vstd::string::StringExecFns;

verus! {

/// The word that peering names start with.
pub open spec fn peering_word() -> Seq<char> {
    seq!['p', 'e', 'e', 'r', 'i', 'n', 'g']
}

/// A well-formed overlay: up to ten well-formed networks, the `k`-th with
/// VNI `k + 1` and that number, zero-padded to five digits, as both its id
/// and its name; and up to ten well-formed peerings, the `k`-th named
/// "peering" followed by `k`.
pub open spec fn overlay_ok(o: Overlay) -> bool {
    &&& o.vpcs@.len() <= 10
    &&& forall|k: int|
        0 <= k < o.vpcs@.len() ==> {
            let v = #[trigger] o.vpcs@[k];
            &&& vpc_ok(v)
            &&& v.vni == k + 1
            &&& v.id@ == dec5((k + 1) as nat)
            &&& v.name@ == dec5((k + 1) as nat)
        }
    &&& o.peerings@.len() <= 10
    &&& forall|k: int|
        0 <= k < o.peerings@.len() ==> {
            let p = #[trigger] o.peerings@[k];
            &&& vpc_peering_ok(p)
            &&& p.name@ == peering_word() + dec(k as nat)
        }
}

/// A well-formed underlay: exactly one well-formed routing domain, as the
/// target system supports no more.
pub open spec fn underlay_ok(u: Underlay) -> bool {
    u.vrfs@.len() == 1 && vrf_ok(u.vrfs@[0])
}

/// A well-formed configuration: a generation from 0 to 1000 and a
/// well-formed device, overlay and underlay, all present.
pub open spec fn gateway_config_ok(c: GatewayConfig) -> bool {
    &&& 0 <= c.generation <= 1000
    &&& c.device matches Some(dev) && device_ok(dev)
    &&& c.overlay matches Some(o) && overlay_ok(o)
    &&& c.underlay matches Some(u) && underlay_ok(u)
}

impl Overlay {
    pub fn generate<D: Driver>(d: &mut D) -> (r: Option<Self>)
        ensures
            answered(*old(d), *final(d), r),
            r matches Some(o) ==> overlay_ok(o),
            r matches Some(o) ==> o.vpcs@.len() == fit(word(*old(d), *final(d), 0), 0, 10)
                && o.peerings@.len() == fit(word(*old(d), *final(d), 1), 0, 10),
    {
        let nvpcs = gen_usize(d, 0, 10)?;
        let npeerings = gen_usize(d, 0, 10)?;
        let ghost d2 = *d;
        assert(drew(*old(d), d2).len() == 2);
        let mut next_vni: u32 = 1;
        let mut vpcs: Vec<Vpc> = Vec::new();
        while vpcs.len() < nvpcs
            invariant
                old(d).inexhaustible() ==> d.inexhaustible(),
                extends(d.drawn(), old(d).drawn()),
                d.refused() == old(d).refused(),
                nvpcs <= 10,
                extends(d.drawn(), d2.drawn()),
                extends(d2.drawn(), old(d).drawn()),
                drew(*old(d), d2).len() == 2,
                vpcs@.len() <= nvpcs,
                next_vni == vpcs@.len() + 1,
                forall|k: int|
                    0 <= k < vpcs@.len() ==> {
                        let v = #[trigger] vpcs@[k];
                        &&& vpc_ok(v)
                        &&& v.vni == k + 1
                        &&& v.id@ == dec5((k + 1) as nat)
                        &&& v.name@ == dec5((k + 1) as nat)
                    },
            decreases nvpcs - vpcs@.len(),
        {
            let mut vpc = Vpc::generate(d)?;
            vpc.vni = next_vni;
            vpc.id = zero_padded5(next_vni);
            vpc.name = zero_padded5(next_vni);
            proof {
                let n = next_vni as nat;
                lemma_digit_in_alnum((n / 10000) % 10);
                lemma_digit_in_alnum((n / 1000) % 10);
                lemma_digit_in_alnum((n / 100) % 10);
                lemma_digit_in_alnum((n / 10) % 10);
                lemma_digit_in_alnum(n % 10);
                assert(drawn_from(vpc.id@, ALPHA_NUMERIC_CHARS@));
            }
            let ghost before = vpcs@;
            vpcs.push(vpc);
            proof {
                assert forall|k: int| 0 <= k < before.len() implies vpcs@[k] == before[k] by {}
            }
            next_vni = next_vni + 1;
        }
        let mut peering_num: usize = 0;
        let mut peerings: Vec<VpcPeering> = Vec::new();
        while peering_num < npeerings
            invariant
                old(d).inexhaustible() ==> d.inexhaustible(),
                extends(d.drawn(), old(d).drawn()),
                d.refused() == old(d).refused(),
                npeerings <= 10,
                extends(d.drawn(), d2.drawn()),
                extends(d2.drawn(), old(d).drawn()),
                drew(*old(d), d2).len() == 2,
                peering_num <= npeerings,
                peerings@.len() == peering_num,
                forall|k: int|
                    0 <= k < peerings@.len() ==> {
                        let p = #[trigger] peerings@[k];
                        &&& vpc_peering_ok(p)
                        &&& p.name@ == peering_word() + dec(k as nat)
                    },
            decreases npeerings - peering_num,
        {
            let mut peering = VpcPeering::generate(d)?;
            let mut name = String::from_str("peering");
            proof {
                reveal_strlit("peering");
                assert(name@ =~= peering_word());
            }
            push_digits(&mut name, peering_num as u64, 10);
            peering.name = name;
            peerings.push(peering);
            peering_num = peering_num + 1;
        }
        assert(drew(*old(d), *d)[0] == drew(*old(d), d2)[0]);
        assert(drew(*old(d), *d)[1] == drew(*old(d), d2)[1]);
        Some(Overlay { vpcs, peerings })
    }
}

/// The number of routing domains that the target system supports.
pub const MAX_UNDERLAY_VRFS: usize = 1;

impl Underlay {
    pub fn generate<D: Driver>(d: &mut D) -> (r: Option<Self>)
        ensures
            answered(*old(d), *final(d), r),
            r matches Some(u) ==> underlay_ok(u),
            r matches Some(u) ==> vrf_follows(u.vrfs@[0], drew(*old(d), *final(d))),
    {
        let nvrfs = gen_usize(d, 1, MAX_UNDERLAY_VRFS)?;
        let ghost d1 = *d;
        let mut vrfs: Vec<Vrf> = Vec::new();
        while vrfs.len() < nvrfs
            invariant
                old(d).inexhaustible() ==> d.inexhaustible(),
                extends(d.drawn(), old(d).drawn()),
                d.refused() == old(d).refused(),
                nvrfs == 1,
                vrfs@.len() <= nvrfs,
                extends(d1.drawn(), old(d).drawn()),
                vrfs@.len() == 0 ==> *d == d1,
                vrfs@.len() == 1 ==> vrf_follows(vrfs@[0], drew(*old(d), *d)),
                forall|k: int| 0 <= k < vrfs@.len() ==> vrf_ok(#[trigger] vrfs@[k]),
            decreases nvrfs - vrfs@.len(),
        {
            let ghost dp = *d;
            let v = Vrf::generate(d)?;
            proof {
                assert(drew(*old(d), *d) =~= drew(*old(d), dp) + drew(dp, *d));
                lemma_vrf_follows_after(v, drew(*old(d), dp), drew(dp, *d));
            }
            vrfs.push(v);
        }
        Some(Underlay { vrfs })
    }
}

impl GatewayConfig {
    pub fn generate<D: Driver>(d: &mut D) -> (r: Option<Self>)
        ensures
            answered(*old(d), *final(d), r),
            r matches Some(c) ==> gateway_config_ok(c),
            r matches Some(c) ==> c.generation == fit(word(*old(d), *final(d), 0), 0, 1000),
            r matches Some(c) ==> c.device matches Some(dev) && dev.driver == packet_driver_for(
                fit(word(*old(d), *final(d), 1), 0, 1),
            ),
            r matches Some(c) ==> c.underlay matches Some(u) && vrf_follows(
                u.vrfs@[0],
                drew(*old(d), *final(d)),
            ),
    {
        let generation = gen_i64(d, 0, 1000)?;
        let ghost d1 = *d;
        let device = Device::generate(d)?;
        let ghost d2 = *d;
        let overlay = Overlay::generate(d)?;
        let ghost d3 = *d;
        let underlay = Underlay::generate(d)?;
        proof {
            let w = drew(*old(d), *d);
            assert(w =~= drew(*old(d), d1) + drew(d1, d2) + drew(d2, d3) + drew(d3, *d));
            assert(w[0] == drew(*old(d), d1)[0]);
            assert(w[1] == drew(d1, d2)[0]);
            assert(w =~= drew(*old(d), d3) + drew(d3, *d));
            lemma_vrf_follows_after(underlay.vrfs@[0], drew(*old(d), d3), drew(d3, *d));
        }
        Some(
            GatewayConfig {
                generation,
                device: Some(device),
                overlay: Some(overlay),
                underlay: Some(underlay),
            },
        )
    }
}

} // verus!
