//! Generators of peering-IP rules, of either family or of one family.

use vstd::prelude::*;
use crate::config::{PeeringIPs, PeeringIpsRule, ips_block};
use crate::driver::{Driver, answered, drew, drew_words, extends, fit, word, gen_bool};
use crate::support::{CidrString, V4CidrString, V6CidrString, is_v4_cidr, is_v6_cidr};

verus! {

impl PeeringIpsRule {
    pub fn generate<D: Driver>(d: &mut D) -> (r: Option<Self>)
        ensures
            r matches Some(v) ==> ((v matches PeeringIpsRule::Not(_)) <==> 
                word(*old(d), *final(d), 0) % 2 == 1),
            answered(*old(d), *final(d), r),
            r matches Some(v) ==> is_v4_cidr(ips_block(v)) || is_v6_cidr(ips_block(v)),
    {
        let not = gen_bool(d)?;
        let ghost d1 = *d;
        assert(drew(*old(d), d1).len() == 1);
        if not {
            Some(PeeringIpsRule::Not(CidrString::generate(d)?.0))
        } else {
            Some(PeeringIpsRule::Cidr(CidrString::generate(d)?.0))
        }
    }
}

impl PeeringIPs {
    pub fn generate<D: Driver>(d: &mut D) -> (r: Option<Self>)
        ensures
            r matches Some(v) ==> ((v.rule matches Some(PeeringIpsRule::Not(_))) <==> 
                word(*old(d), *final(d), 0) % 2 == 1),
            answered(*old(d), *final(d), r),
            r matches Some(v) ==> v.rule matches Some(x) && (is_v4_cidr(ips_block(x)) || is_v6_cidr(
                ips_block(x),
            )),
    {
        Some(PeeringIPs { rule: Some(PeeringIpsRule::generate(d)?) })
    }
}

/// A rule on an IPv4 block.
pub struct V4Rule(pub PeeringIpsRule);

/// A rule on an IPv6 block.
pub struct V6Rule(pub PeeringIpsRule);

impl V4Rule {
    pub fn generate<D: Driver>(d: &mut D) -> (r: Option<Self>)
        ensures
            r matches Some(v) ==> ((v.0 matches PeeringIpsRule::Not(_)) <==> 
                word(*old(d), *final(d), 0) % 2 == 1),
            answered(*old(d), *final(d), r),
            r matches Some(v) ==> is_v4_cidr(ips_block(v.0)),
    {
        let not = gen_bool(d)?;
        let ghost d1 = *d;
        assert(drew(*old(d), d1).len() == 1);
        let cidr = V4CidrString::generate(d)?.0;
        if not {
            Some(V4Rule(PeeringIpsRule::Not(cidr)))
        } else {
            Some(V4Rule(PeeringIpsRule::Cidr(cidr)))
        }
    }
}

impl V6Rule {
    pub fn generate<D: Driver>(d: &mut D) -> (r: Option<Self>)
        ensures
            r matches Some(v) ==> ((v.0 matches PeeringIpsRule::Not(_)) <==> 
                word(*old(d), *final(d), 0) % 2 == 1),
            answered(*old(d), *final(d), r),
            r matches Some(v) ==> is_v6_cidr(ips_block(v.0)),
    {
        let not = gen_bool(d)?;
        let ghost d1 = *d;
        assert(drew(*old(d), d1).len() == 1);
        let cidr = V6CidrString::generate(d)?.0;
        if not {
            Some(V6Rule(PeeringIpsRule::Not(cidr)))
        } else {
            Some(V6Rule(PeeringIpsRule::Cidr(cidr)))
        }
    }
}

/// A peering-IP rule on an IPv4 block.
#[derive(Debug, PartialEq, Clone)]
pub struct V4PeeringIPs(pub PeeringIPs);

/// A peering-IP rule on an IPv6 block.
#[derive(Debug, PartialEq, Clone)]
pub struct V6PeeringIPs(pub PeeringIPs);

impl V4PeeringIPs {
    pub fn generate<D: Driver>(d: &mut D) -> (r: Option<Self>)
        ensures
            r matches Some(v) ==> ((v.0.rule matches Some(PeeringIpsRule::Not(_))) <==> 
                word(*old(d), *final(d), 0) % 2 == 1),
            answered(*old(d), *final(d), r),
            r matches Some(v) ==> v.0.rule matches Some(x) && is_v4_cidr(ips_block(x)),
    {
        Some(V4PeeringIPs(PeeringIPs { rule: Some(V4Rule::generate(d)?.0) }))
    }
}

impl V6PeeringIPs {
    pub fn generate<D: Driver>(d: &mut D) -> (r: Option<Self>)
        ensures
            r matches Some(v) ==> ((v.0.rule matches Some(PeeringIpsRule::Not(_))) <==> 
                word(*old(d), *final(d), 0) % 2 == 1),
            answered(*old(d), *final(d), r),
            r matches Some(v) ==> v.0.rule matches Some(x) && is_v6_cidr(ips_block(x)),
    {
        Some(V6PeeringIPs(PeeringIPs { rule: Some(V6Rule::generate(d)?.0) }))
    }
}

} // verus!
