//! Routing domains.

use vstd::prelude::*;
use crate::bgp::router_ok;
use crate::config::{Interface, OspfConfig, RouterConfig, Vrf};
use crate::driver::{Driver, answered, drew, drew_words, extends, fit, word, gen_u16};
use crate::interface::{interface_ok, ospf_config_ok};
use crate::support::{
    IF_NAME_MAX_LEN, LinuxIfName, LinuxIfNamesGenerator, choose_one, drawn_from, is_if_name,
    lemma_numbered_if_name, lemma_numbered_names_differ, texts, IF_NAME_CHARS,
};
use crate::text::{dec, digit_char};
use crate::vpc::unique_if_names;

verus! {

/// A well-formed routing domain: a name of the interface-name form, one to
/// ten well-formed interfaces with pairwise different names, and
/// well-formed BGP and OSPF settings where present.
pub open spec fn vrf_ok(v: Vrf) -> bool {
    &&& is_if_name(v.name@)
    &&& 1 <= v.interfaces@.len() <= 10
    &&& forall|i: int| 0 <= i < v.interfaces@.len() ==> interface_ok(#[trigger] v.interfaces@[i])
    &&& unique_if_names(v.interfaces@)
    &&& v.router matches Some(r) ==> router_ok(r)
    &&& v.ospf matches Some(o) ==> ospf_config_ok(o)
}

/// How a routing domain follows from the words drawn for it (and for
/// whatever came before it): the last two words choose whether BGP and OSPF
/// settings are present, and one word fixes the number of interfaces.
pub open spec fn vrf_follows(v: Vrf, w: Seq<u64>) -> bool {
    &&& w.len() >= 3
    &&& (v.router is Some <==> fit(w[w.len() - 2] as nat, 0, 1) == 0)
    &&& (v.ospf is Some <==> fit(w[w.len() - 1] as nat, 0, 1) == 0)
    &&& exists|k: int|
        0 <= k < w.len() && v.interfaces@.len() == fit(#[trigger] w[k] as nat, 1, 10)
}

/// Words drawn before a routing domain's own keep it following them.
pub proof fn lemma_vrf_follows_after(v: Vrf, pre: Seq<u64>, w: Seq<u64>)
    requires
        vrf_follows(v, w),
    ensures
        vrf_follows(v, pre + w),
{
    let all = pre + w;
    let k = choose|k: int| 0 <= k < w.len() && v.interfaces@.len() == fit(#[trigger] w[k] as nat, 1, 10);
    assert(all[pre.len() + k] == w[k]);
    assert(all[all.len() - 2] == w[w.len() - 2]);
    assert(all[all.len() - 1] == w[w.len() - 1]);
}

impl Vrf {
    pub fn generate<D: Driver>(d: &mut D) -> (r: Option<Self>)
        ensures
            answered(*old(d), *final(d), r),
            r matches Some(v) ==> vrf_ok(v),
            r matches Some(v) ==> vrf_follows(v, drew(*old(d), *final(d))),
    {
        let router = RouterConfig::generate(d)?;
        let ospf = OspfConfig::generate(d)?;
        let ghost dn = *d;
        let ninterfaces = gen_u16(d, 1, 10)?;
        let ghost dn1 = *d;
        let gen_if_names = LinuxIfNamesGenerator { count: ninterfaces };
        let if_names = gen_if_names.generate(d)?;
        let mut interfaces: Vec<Interface> = Vec::new();
        let mut i: usize = 0;
        while i < ninterfaces as usize
            invariant
                old(d).inexhaustible() ==> d.inexhaustible(),
                extends(d.drawn(), old(d).drawn()),
                d.refused() == old(d).refused(),
                ninterfaces <= 10,
                extends(d.drawn(), dn1.drawn()),
                extends(dn1.drawn(), dn.drawn()),
                extends(dn.drawn(), old(d).drawn()),
                drew(dn, dn1).len() == 1,
                i <= ninterfaces,
                if_names@.len() == ninterfaces,
                crate::support::numbered_if_names(texts(if_names@), ninterfaces as nat),
                interfaces@.len() == i,
                forall|k: int|
                    0 <= k < interfaces@.len() ==> interface_ok(#[trigger] interfaces@[k])
                        && interfaces@[k].name@.len() > 0 && interfaces@[k].name@.last()
                        == digit_char(k as nat),
            decreases ninterfaces - i,
        {
            let mut intf = Interface::generate(d)?;
            intf.name = if_names[i].clone();
            proof {
                assert(texts(if_names@)[i as int] == if_names@[i as int]@);
                let stub = choose|stub: Seq<char>|
                    1 <= stub.len() <= IF_NAME_MAX_LEN - 8 && drawn_from(stub, IF_NAME_CHARS@)
                        && #[trigger] texts(if_names@)[i as int] == stub + dec(i as nat);
                lemma_numbered_if_name(stub, i as nat);
            }
            interfaces.push(intf);
            i = i + 1;
        }
        proof {
            assert forall|i: int, j: int| 0 <= i < j < interfaces@.len() implies interfaces@[i].name@
                != interfaces@[j].name@ by {
                lemma_numbered_names_differ(
                    interfaces@[i].name@,
                    interfaces@[j].name@,
                    i as nat,
                    j as nat,
                );
            }
        }
        let name = LinuxIfName::generate(d)?.0;
        let mut router_choices: Vec<Option<RouterConfig>> = Vec::new();
        router_choices.push(Some(router));
        router_choices.push(None);
        let ghost da = *d;
        let router = choose_one(d, router_choices)?;
        let ghost db = *d;
        let mut ospf_choices: Vec<Option<OspfConfig>> = Vec::new();
        ospf_choices.push(Some(ospf));
        ospf_choices.push(None);
        let ospf = choose_one(d, ospf_choices)?;
        proof {
            let w = drew(*old(d), *d);
            assert(w =~= drew(*old(d), da) + drew(da, db) + drew(db, *d));
            let kn = drew(*old(d), dn).len() as int;
            assert(w[kn] == drew(dn, dn1)[0]);
            assert(ninterfaces as nat == fit(w[kn] as nat, 1, 10));
            assert(w[w.len() - 2] == drew(da, db)[0]);
            assert(w[w.len() - 1] == drew(db, *d)[0]);
        }
        Some(Vrf { name, interfaces, router, ospf })
    }
}

} // verus!
