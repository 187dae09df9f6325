//! Virtual networks and the peerings between them.

use vstd::prelude::*;
use crate::config::{Expose, Interface, PeeringEntryFor, Vpc, VpcPeering};
use crate::driver::{Driver, answered, drew, drew_words, extends, fit, word, gen_u32, gen_usize};
use crate::expose::expose_ok;
use crate::interface::interface_ok;
use crate::support::{
    ALPHA_NUMERIC_CHARS, IF_NAME_CHARS, IF_NAME_MAX_LEN, LinuxIfName, drawn_from, gen_from_chars, is_if_name,
    lemma_numbered_if_name, lemma_numbered_names_differ,
};
use crate::text::{dec, digit_char, pop_char, push_digits};

verus! {

/// One side of a peering: a network name and exactly one exposure.
pub open spec fn peering_entry_ok(e: PeeringEntryFor) -> bool {
    &&& is_if_name(e.vpc@)
    &&& e.expose@.len() == 1
    &&& expose_ok(e.expose@[0])
}

/// A peering has exactly two well-formed sides.
pub open spec fn vpc_peering_ok(p: VpcPeering) -> bool {
    &&& p.entries@.len() == 2
    &&& peering_entry_ok(p.entries@[0])
    &&& peering_entry_ok(p.entries@[1])
}

/// Interface names are pairwise different.
pub open spec fn unique_if_names(v: Seq<Interface>) -> bool {
    forall|i: int, j: int| 0 <= i < j < v.len() ==> v[i].name@ != v[j].name@
}

/// A well-formed virtual network: a VNI from 1 to `2^20 - 1`, an id of
/// five alphanumeric characters, and one to ten well-formed interfaces with
/// pairwise different names.
pub open spec fn vpc_ok(v: Vpc) -> bool {
    &&& 1 <= v.vni < 0x10_0000
    &&& v.id@.len() == 5
    &&& drawn_from(v.id@, ALPHA_NUMERIC_CHARS@)
    &&& 1 <= v.interfaces@.len() <= 10
    &&& forall|i: int| 0 <= i < v.interfaces@.len() ==> interface_ok(#[trigger] v.interfaces@[i])
    &&& unique_if_names(v.interfaces@)
    &&& forall|k: int|
        0 <= k < v.interfaces@.len() ==> exists|stub: Seq<char>|
            stub.len() < IF_NAME_MAX_LEN && drawn_from(stub, IF_NAME_CHARS@) && #[trigger] v.interfaces@[k].name@
                == stub + dec(k as nat)
}

impl PeeringEntryFor {
    pub fn generate<D: Driver>(d: &mut D) -> (r: Option<Self>)
        ensures
            answered(*old(d), *final(d), r),
            r matches Some(e) ==> peering_entry_ok(e),
    {
        let vpc = LinuxIfName::generate(d)?.0;
        let mut expose: Vec<Expose> = Vec::new();
        expose.push(Expose::generate(d)?);
        Some(PeeringEntryFor { vpc, expose })
    }
}

impl VpcPeering {
    pub fn generate<D: Driver>(d: &mut D) -> (r: Option<Self>)
        ensures
            answered(*old(d), *final(d), r),
            r matches Some(p) ==> vpc_peering_ok(p) && is_if_name(p.name@),
    {
        let name = LinuxIfName::generate(d)?.0;
        let mut entries: Vec<PeeringEntryFor> = Vec::new();
        entries.push(PeeringEntryFor::generate(d)?);
        entries.push(PeeringEntryFor::generate(d)?);
        Some(VpcPeering { name, entries })
    }
}

impl Vpc {
    pub fn generate<D: Driver>(d: &mut D) -> (r: Option<Self>)
        ensures
            answered(*old(d), *final(d), r),
            r matches Some(v) ==> vpc_ok(v) && is_if_name(v.name@),
            r matches Some(v) ==> v.interfaces@.len() == fit(word(*old(d), *final(d), 0), 1, 10),
    {
        proof {
            crate::support::lemma_alphabet_lengths();
        }
        let nintf = gen_usize(d, 1, 10)?;
        let ghost d1 = *d;
        let name = LinuxIfName::generate(d)?.0;
        let id = gen_from_chars(d, ALPHA_NUMERIC_CHARS, 5, 5)?;
        assert(1u32 << 20u32 == 0x10_0000u32) by (bit_vector);
        let vni = gen_u32(d, 1, (1u32 << 20u32) - 1)?;
        let mut interfaces: Vec<Interface> = Vec::new();
        let mut iface_num: usize = 0;
        while iface_num < nintf
            invariant
                old(d).inexhaustible() ==> d.inexhaustible(),
                extends(d.drawn(), old(d).drawn()),
                d.refused() == old(d).refused(),
                iface_num <= nintf <= 10,
                interfaces@.len() == iface_num,
                forall|k: int|
                    0 <= k < interfaces@.len() ==> interface_ok(#[trigger] interfaces@[k])
                        && interfaces@[k].name@.len() > 0 && interfaces@[k].name@.last()
                        == digit_char(k as nat),
                forall|k: int|
                    0 <= k < interfaces@.len() ==> exists|stub: Seq<char>|
                        stub.len() < IF_NAME_MAX_LEN && drawn_from(stub, IF_NAME_CHARS@)
                            && #[trigger] interfaces@[k].name@ == stub + dec(k as nat),
                extends(d.drawn(), d1.drawn()),
                extends(d1.drawn(), old(d).drawn()),
                drew(*old(d), d1).len() == 1,
                nintf == fit(word(*old(d), d1, 0), 1, 10),
            decreases nintf - iface_num,
        {
            let mut iface = Interface::generate(d)?;
            // The name is rewritten so that it ends in the interface's number,
            // which makes the names of one network pairwise different.
            let mut stub = LinuxIfName::generate(d)?.0;
            if stub.as_str().unicode_len() > 0 {
                let _ = pop_char(&mut stub);
            }
            let ghost s = stub@;
            push_digits(&mut stub, iface_num as u64, 10);
            proof {
                lemma_numbered_if_name(s, iface_num as nat);
            }
            iface.name = stub;
            let ghost before = interfaces@;
            interfaces.push(iface);
            proof {
                assert(interfaces@[iface_num as int].name@ == s + dec(iface_num as nat));
                assert forall|k: int| 0 <= k < interfaces@.len() implies exists|stub: Seq<char>|
                    stub.len() < IF_NAME_MAX_LEN && drawn_from(stub, IF_NAME_CHARS@)
                        && #[trigger] interfaces@[k].name@ == stub + dec(k as nat) by {
                    if k < iface_num {
                        assert(interfaces@[k] == before[k]);
                        let st = choose|st: Seq<char>|
                            st.len() < IF_NAME_MAX_LEN && drawn_from(st, IF_NAME_CHARS@)
                                && #[trigger] before[k].name@ == st + dec(k as nat);
                        assert(interfaces@[k].name@ == st + dec(k as nat));
                    } else {
                        assert(s.len() < IF_NAME_MAX_LEN && drawn_from(s, IF_NAME_CHARS@));
                        assert(interfaces@[k].name@ == s + dec(k as nat));
                    }
                }
            }
            iface_num = iface_num + 1;
        }
        proof {
            assert forall|i: int, j: int| 0 <= i < j < interfaces@.len() implies interfaces@[i].name@
                != interfaces@[j].name@ by {
                lemma_numbered_names_differ(
                    interfaces@[i].name@,
                    interfaces@[j].name@,
                    i as nat,
                    j as nat,
                );
            }
        }
        assert(drew(*old(d), *d)[0] == drew(*old(d), d1)[0]);
        Some(Vpc { name, id, vni, interfaces })
    }
}

} // verus!
