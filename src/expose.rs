//! Exposures of a peering: unique peering-IP and peering-AS rules, all of
//! one address family.

use vstd::prelude::*;
use crate::config::{
    Expose, PeeringAs, PeeringAsRule, PeeringIPs, PeeringIpsRule, as_texts, ips_texts,
};
use crate::driver::{
    Driver, answered, drew, drew_words, extends, fit, word, gen_bool, gen_u16, gen_u8,
};
use crate::support::{
    unique_v4_blocks, unique_v6_blocks,
    CidrListGenerator, UniqueV4CidrGenerator, UniqueV6CidrGenerator, all_v4_cidrs, all_v6_cidrs,
    block_count, distinct_texts, is_v4_block, is_v4_cidr, is_v6_block, is_v6_cidr, texts,
};

verus! {

/// A well-formed exposure: one to ten peering-IP rules and, where there are
/// peering-AS rules, as many of those; every rule present; the blocks of
/// each list distinct; and all blocks of a single address family.
pub open spec fn expose_ok(e: Expose) -> bool {
    let ips = ips_texts(e.ips@);
    let ases = as_texts(e.as_rules@);
    &&& 1 <= e.ips@.len() <= 10
    &&& e.as_rules@.len() == 0 || e.as_rules@.len() == e.ips@.len()
    &&& forall|i: int| 0 <= i < e.ips@.len() ==> (#[trigger] e.ips@[i]).rule is Some
    &&& forall|i: int| 0 <= i < e.as_rules@.len() ==> (#[trigger] e.as_rules@[i]).rule is Some
    &&& distinct_texts(ips)
    &&& distinct_texts(ases)
    &&& (all_v4_cidrs(ips) && all_v4_cidrs(ases)) || (all_v6_cidrs(ips) && all_v6_cidrs(ases))
    &&& exists|m: nat| #[trigger] shared_prefix(ips, ases, m)
}

/// Both lists are unique blocks of one prefix length `m`, none the zero
/// block: IPv4 with `m` from 8 to 32, or IPv6 with `m` from 16 to 128; the
/// second list may be empty.
pub open spec fn shared_prefix(ips: Seq<Seq<char>>, ases: Seq<Seq<char>>, m: nat) -> bool {
    ||| 8 <= m <= 32 && unique_v4_blocks(ips, ips.len(), m) && (ases.len() == 0
        || unique_v4_blocks(ases, ips.len(), m))
    ||| 16 <= m <= 128 && unique_v6_blocks(ips, ips.len(), m) && (ases.len() == 0
        || unique_v6_blocks(ases, ips.len(), m))
}

/// Turns each block that a producer yields into a peering-AS rule.
pub struct UniquePeeringAs<T: CidrListGenerator> {
    cidr_producer: T,
}

impl<T: CidrListGenerator> UniquePeeringAs<T> {
    /// The producer of the blocks.
    pub closed spec fn producer(&self) -> T {
        self.cidr_producer
    }

    pub fn new(cidr_producer: T) -> (r: Self)
        ensures
            r.producer() == cidr_producer,
    {
        Self { cidr_producer }
    }

    /// One rule for each block, in the producer's order; the word drawn for
    /// each rule decides whether it excludes its block.
    pub fn generate<D: Driver>(&self, d: &mut D) -> (r: Option<Vec<PeeringAs>>)
        requires
            self.producer().ready(),
        ensures
            extends(final(d).drawn(), old(d).drawn()),
            old(d).refused() <= final(d).refused(),
            r is None ==> old(d).refused() < final(d).refused(),
            self.producer().strict() ==> answered(*old(d), *final(d), r),
            old(d).inexhaustible() ==> r is Some && final(d).inexhaustible(),
            r matches Some(v) ==> {
                let w = drew(*old(d), *final(d));
                let k = w.len() - v@.len();
                &&& 0 <= k
                &&& self.producer().accepts(as_texts(v@))
                &&& self.producer().yields(w.subrange(0, k), as_texts(v@))
                &&& forall|i: int|
                    0 <= i < v@.len() ==> (#[trigger] v@[i]).rule is Some && (v@[i].rule matches Some(
                        PeeringAsRule::Not(_),
                    ) <==> w[k + i] % 2 == 1)
            },
    {
        let ghost d0 = *d;
        let cidrs = self.cidr_producer.generate(d)?;
        let ghost d1 = *d;
        let mut rules: Vec<PeeringAs> = Vec::new();
        let mut i: usize = 0;
        while i < cidrs.len()
            invariant
                old(d).inexhaustible() ==> d.inexhaustible(),
                d0 == *old(d),
                extends(d1.drawn(), d0.drawn()),
                extends(d.drawn(), d1.drawn()),
                d.refused() == d1.refused(),
                d0.refused() <= d1.refused(),
                self.producer().strict() ==> d1.refused() == d0.refused(),
                drew(d1, *d).len() == i,
                i <= cidrs@.len(),
                rules@.len() == i,
                forall|k: int|
                    0 <= k < i ==> (#[trigger] rules@[k]).rule is Some && as_texts(rules@)[k] == texts(
                        cidrs@,
                    )[k] && (rules@[k].rule matches Some(PeeringAsRule::Not(_)) <==> drew(d1, *d)[k] % 2
                        == 1),
            decreases cidrs@.len() - i,
        {
            let ghost dp = *d;
            let use_not = gen_bool(d)?;
            let cidr = cidrs[i].clone();
            let rule = if use_not {
                PeeringAsRule::Not(cidr)
            } else {
                PeeringAsRule::Cidr(cidr)
            };
            let ghost before = rules@;
            rules.push(PeeringAs { rule: Some(rule) });
            proof {
                assert(drew(d1, *d) =~= drew(d1, dp).push(drew(dp, *d)[0]));
                assert forall|k: int|
                    0 <= k < i + 1 implies (#[trigger] rules@[k]).rule is Some && as_texts(rules@)[k]
                    == texts(cidrs@)[k] && (rules@[k].rule matches Some(PeeringAsRule::Not(_)) <==> drew(
                    d1,
                    *d,
                )[k] % 2 == 1) by {
                    if k < i {
                        assert(rules@[k] == before[k]);
                        assert(as_texts(before)[k] == texts(cidrs@)[k]);
                    }
                }
            }
            i = i + 1;
        }
        proof {
            let w = drew(*old(d), *d);
            let k = w.len() - rules@.len();
            assert(as_texts(rules@) =~= texts(cidrs@));
            assert(w.subrange(0, k) =~= drew(d0, d1));
            assert forall|j: int| 0 <= j < rules@.len() implies w[k + j] == drew(d1, *d)[j] by {}
        }
        Some(rules)
    }
}

/// Turns each block that a producer yields into a peering-IP rule.
pub struct UniquePeeringIPs<T: CidrListGenerator> {
    cidr_producer: T,
}

impl<T: CidrListGenerator> UniquePeeringIPs<T> {
    /// The producer of the blocks.
    pub closed spec fn producer(&self) -> T {
        self.cidr_producer
    }

    pub fn new(cidr_producer: T) -> (r: Self)
        ensures
            r.producer() == cidr_producer,
    {
        Self { cidr_producer }
    }

    /// One rule for each block, in the producer's order; the word drawn for
    /// each rule decides whether it excludes its block.
    pub fn generate<D: Driver>(&self, d: &mut D) -> (r: Option<Vec<PeeringIPs>>)
        requires
            self.producer().ready(),
        ensures
            extends(final(d).drawn(), old(d).drawn()),
            old(d).refused() <= final(d).refused(),
            r is None ==> old(d).refused() < final(d).refused(),
            self.producer().strict() ==> answered(*old(d), *final(d), r),
            old(d).inexhaustible() ==> r is Some && final(d).inexhaustible(),
            r matches Some(v) ==> {
                let w = drew(*old(d), *final(d));
                let k = w.len() - v@.len();
                &&& 0 <= k
                &&& self.producer().accepts(ips_texts(v@))
                &&& self.producer().yields(w.subrange(0, k), ips_texts(v@))
                &&& forall|i: int|
                    0 <= i < v@.len() ==> (#[trigger] v@[i]).rule is Some && (v@[i].rule matches Some(
                        PeeringIpsRule::Not(_),
                    ) <==> w[k + i] % 2 == 1)
            },
    {
        let ghost d0 = *d;
        let cidrs = self.cidr_producer.generate(d)?;
        let ghost d1 = *d;
        let mut rules: Vec<PeeringIPs> = Vec::new();
        let mut i: usize = 0;
        while i < cidrs.len()
            invariant
                old(d).inexhaustible() ==> d.inexhaustible(),
                d0 == *old(d),
                extends(d1.drawn(), d0.drawn()),
                extends(d.drawn(), d1.drawn()),
                d.refused() == d1.refused(),
                d0.refused() <= d1.refused(),
                self.producer().strict() ==> d1.refused() == d0.refused(),
                drew(d1, *d).len() == i,
                i <= cidrs@.len(),
                rules@.len() == i,
                forall|k: int|
                    0 <= k < i ==> (#[trigger] rules@[k]).rule is Some && ips_texts(rules@)[k] == texts(
                        cidrs@,
                    )[k] && (rules@[k].rule matches Some(PeeringIpsRule::Not(_)) <==> drew(d1, *d)[k] % 2
                        == 1),
            decreases cidrs@.len() - i,
        {
            let ghost dp = *d;
            let use_not = gen_bool(d)?;
            let cidr = cidrs[i].clone();
            let rule = if use_not {
                PeeringIpsRule::Not(cidr)
            } else {
                PeeringIpsRule::Cidr(cidr)
            };
            let ghost before = rules@;
            rules.push(PeeringIPs { rule: Some(rule) });
            proof {
                assert(drew(d1, *d) =~= drew(d1, dp).push(drew(dp, *d)[0]));
                assert forall|k: int|
                    0 <= k < i + 1 implies (#[trigger] rules@[k]).rule is Some && ips_texts(rules@)[k]
                    == texts(cidrs@)[k] && (rules@[k].rule matches Some(PeeringIpsRule::Not(_)) <==> drew(
                    d1,
                    *d,
                )[k] % 2 == 1) by {
                    if k < i {
                        assert(rules@[k] == before[k]);
                        assert(ips_texts(before)[k] == texts(cidrs@)[k]);
                    }
                }
            }
            i = i + 1;
        }
        proof {
            let w = drew(*old(d), *d);
            let k = w.len() - rules@.len();
            assert(ips_texts(rules@) =~= texts(cidrs@));
            assert(w.subrange(0, k) =~= drew(d0, d1));
            assert forall|j: int| 0 <= j < rules@.len() implies w[k + j] == drew(d1, *d)[j] by {}
        }
        Some(rules)
    }
}

/// With a prefix length of eight or more, a request for up to ten blocks is
/// met in full.
proof fn lemma_small_request_met(count: nat, m: nat)
    requires
        count <= 10,
        8 <= m,
    ensures
        block_count(count, m) == count,
{
    vstd::arithmetic::power2::lemma2_to64();
    if m > 8 {
        vstd::arithmetic::power2::lemma_pow2_strictly_increases(8, m);
    }
}

impl Expose {
    pub fn generate<D: Driver>(d: &mut D) -> (r: Option<Self>)
        ensures
            answered(*old(d), *final(d), r),
            r matches Some(e) ==> expose_ok(e),
            r matches Some(e) ==> {
                let v4 = word(*old(d), *final(d), 0) % 2 == 1;
                let len = fit(word(*old(d), *final(d), 1), 1, 10);
                let m = if v4 {
                    fit(word(*old(d), *final(d), 2), 8, 32)
                } else {
                    fit(word(*old(d), *final(d), 3), 16, 128)
                };
                &&& e.ips@.len() == len
                &&& v4 ==> shared_prefix(ips_texts(e.ips@), as_texts(e.as_rules@), m) && all_v4_cidrs(
                    ips_texts(e.ips@),
                )
                &&& !v4 ==> shared_prefix(ips_texts(e.ips@), as_texts(e.as_rules@), m)
                    && all_v6_cidrs(ips_texts(e.ips@))
            },
    {
        let v4 = gen_bool(d)?;
        let len = gen_u16(d, 1, 10)?;
        let v4_mask = gen_u8(d, 8, 32)?;
        let v6_mask = gen_u8(d, 16, 128)?;
        let ghost d4 = *d;
        assert(drew(*old(d), d4).len() == 4);
        proof {
            lemma_small_request_met(len as nat, v4_mask as nat);
            lemma_small_request_met(len as nat, v6_mask as nat);
        }
        let peering_ips = if v4 {
            let v4_cidr_producer_ips = UniquePeeringIPs::new(UniqueV4CidrGenerator::new(len, v4_mask));
            v4_cidr_producer_ips.generate(d)?
        } else {
            let v6_cidr_producer_ips = UniquePeeringIPs::new(UniqueV6CidrGenerator::new(len, v6_mask));
            v6_cidr_producer_ips.generate(d)?
        };
        let has_as = gen_bool(d)?;
        let as_rules = if has_as {
            if v4 {
                let v4_cidr_producer_as = UniquePeeringAs::new(UniqueV4CidrGenerator::new(len, v4_mask));
                v4_cidr_producer_as.generate(d)?
            } else {
                let v6_cidr_producer_as = UniquePeeringAs::new(UniqueV6CidrGenerator::new(len, v6_mask));
                v6_cidr_producer_as.generate(d)?
            }
        } else {
            Vec::new()
        };
        let e = Expose { ips: peering_ips, as_rules };
        proof {
            let ips = ips_texts(e.ips@);
            let ases = as_texts(e.as_rules@);
            if v4 {
                assert forall|i: int| 0 <= i < ips.len() implies is_v4_cidr(#[trigger] ips[i]) by {
                    assert(is_v4_block(ips[i], v4_mask as nat));
                }
                assert forall|i: int| 0 <= i < ases.len() implies is_v4_cidr(#[trigger] ases[i]) by {
                    assert(is_v4_block(ases[i], v4_mask as nat));
                }
            } else {
                assert forall|i: int| 0 <= i < ips.len() implies is_v6_cidr(#[trigger] ips[i]) by {
                    assert(is_v6_block(ips[i], v6_mask as nat));
                }
                assert forall|i: int| 0 <= i < ases.len() implies is_v6_cidr(#[trigger] ases[i]) by {
                    assert(is_v6_block(ases[i], v6_mask as nat));
                }
            }
            assert(ips.len() == e.ips@.len());
            assert(ases.len() == e.as_rules@.len());
            if !has_as {
                assert(ases =~= Seq::<Seq<char>>::empty());
            }
            let m = if v4 { v4_mask as nat } else { v6_mask as nat };
            assert(shared_prefix(ips, ases, m));
            assert(drew(*old(d), *d)[0] == drew(*old(d), d4)[0]);
            assert(drew(*old(d), *d)[1] == drew(*old(d), d4)[1]);
            assert(drew(*old(d), *d)[2] == drew(*old(d), d4)[2]);
            assert(drew(*old(d), *d)[3] == drew(*old(d), d4)[3]);
        }
        Some(e)
    }
}

} // verus!
