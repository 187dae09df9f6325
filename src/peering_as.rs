//! Generators of peering-AS rules, of either family or of one family.

use vstd::prelude::*;
use crate::config::{PeeringAs, PeeringAsRule, as_block};
use crate::driver::{Driver, answered, drew, drew_words, extends, fit, word, gen_bool};
use crate::support::{CidrString, V4CidrString, V6CidrString, is_v4_cidr, is_v6_cidr};

verus! {

impl PeeringAsRule {
    pub fn generate<D: Driver>(d: &mut D) -> (r: Option<Self>)
        ensures
            r matches Some(v) ==> ((v matches PeeringAsRule::Not(_)) <==> 
                word(*old(d), *final(d), 0) % 2 == 1),
            answered(*old(d), *final(d), r),
            r matches Some(v) ==> is_v4_cidr(as_block(v)) || is_v6_cidr(as_block(v)),
    {
        let not = gen_bool(d)?;
        let ghost d1 = *d;
        assert(drew(*old(d), d1).len() == 1);
        if not {
            Some(PeeringAsRule::Not(CidrString::generate(d)?.0))
        } else {
            Some(PeeringAsRule::Cidr(CidrString::generate(d)?.0))
        }
    }
}

impl PeeringAs {
    pub fn generate<D: Driver>(d: &mut D) -> (r: Option<Self>)
        ensures
            r matches Some(v) ==> ((v.rule matches Some(PeeringAsRule::Not(_))) <==> 
                word(*old(d), *final(d), 0) % 2 == 1),
            answered(*old(d), *final(d), r),
            r matches Some(v) ==> v.rule matches Some(x) && (is_v4_cidr(as_block(x)) || is_v6_cidr(
                as_block(x),
            )),
    {
        Some(PeeringAs { rule: Some(PeeringAsRule::generate(d)?) })
    }
}

/// A rule on an IPv4 block.
pub struct V4Rule(pub PeeringAsRule);

/// A rule on an IPv6 block.
pub struct V6Rule(pub PeeringAsRule);

impl V4Rule {
    pub fn generate<D: Driver>(d: &mut D) -> (r: Option<Self>)
        ensures
            r matches Some(v) ==> ((v.0 matches PeeringAsRule::Not(_)) <==> 
                word(*old(d), *final(d), 0) % 2 == 1),
            answered(*old(d), *final(d), r),
            r matches Some(v) ==> is_v4_cidr(as_block(v.0)),
    {
        let not = gen_bool(d)?;
        let ghost d1 = *d;
        assert(drew(*old(d), d1).len() == 1);
        let cidr = V4CidrString::generate(d)?.0;
        if not {
            Some(V4Rule(PeeringAsRule::Not(cidr)))
        } else {
            Some(V4Rule(PeeringAsRule::Cidr(cidr)))
        }
    }
}

impl V6Rule {
    pub fn generate<D: Driver>(d: &mut D) -> (r: Option<Self>)
        ensures
            r matches Some(v) ==> ((v.0 matches PeeringAsRule::Not(_)) <==> 
                word(*old(d), *final(d), 0) % 2 == 1),
            answered(*old(d), *final(d), r),
            r matches Some(v) ==> is_v6_cidr(as_block(v.0)),
    {
        let not = gen_bool(d)?;
        let ghost d1 = *d;
        assert(drew(*old(d), d1).len() == 1);
        let cidr = V6CidrString::generate(d)?.0;
        if not {
            Some(V6Rule(PeeringAsRule::Not(cidr)))
        } else {
            Some(V6Rule(PeeringAsRule::Cidr(cidr)))
        }
    }
}

/// A peering-AS rule on an IPv4 block.
#[derive(Debug, PartialEq, Clone)]
pub struct V4PeeringAs(pub PeeringAs);

/// A peering-AS rule on an IPv6 block.
#[derive(Debug, PartialEq, Clone)]
pub struct V6PeeringAs(pub PeeringAs);

impl V4PeeringAs {
    pub fn generate<D: Driver>(d: &mut D) -> (r: Option<Self>)
        ensures
            r matches Some(v) ==> ((v.0.rule matches Some(PeeringAsRule::Not(_))) <==> 
                word(*old(d), *final(d), 0) % 2 == 1),
            answered(*old(d), *final(d), r),
            r matches Some(v) ==> v.0.rule matches Some(x) && is_v4_cidr(as_block(x)),
    {
        Some(V4PeeringAs(PeeringAs { rule: Some(V4Rule::generate(d)?.0) }))
    }
}

impl V6PeeringAs {
    pub fn generate<D: Driver>(d: &mut D) -> (r: Option<Self>)
        ensures
            r matches Some(v) ==> ((v.0.rule matches Some(PeeringAsRule::Not(_))) <==> 
                word(*old(d), *final(d), 0) % 2 == 1),
            answered(*old(d), *final(d), r),
            r matches Some(v) ==> v.0.rule matches Some(x) && is_v6_cidr(as_block(x)),
    {
        Some(V6PeeringAs(PeeringAs { rule: Some(V6Rule::generate(d)?.0) }))
    }
}

} // verus!
