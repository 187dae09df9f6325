use std::collections::HashSet;

use gateway_config::config::{BgpNeighbor, GatewayConfig, Overlay, Vpc};
use gateway_config::driver::{Driver, ReplayDriver, SplitMix64, fit_u64, gen_u8, gen_usize};
use gateway_config::support::{
    ALPHA_NUMERIC_CHARS, CidrListGenerator, Ipv4AddrString, K8sObjectNameString,
    LinuxIfNamesGenerator, MacAddrString, UniqueV4CidrGenerator, UniqueV6CidrGenerator,
    choose_one, gen_from_chars, unbounded_shl_u128, unbounded_shl_u32, unbounded_shr_u128,
    unbounded_shr_u32, v4_blocks_from_seed, v4cdir_from_bytes, v6_blocks_from_seed,
    v6cdir_from_bytes,
};
use gateway_config::text::{
    decimal_string, ipv4_string, ipv6_string, mac_string, v4_cidr_string, v6_cidr_string,
    zero_padded5,
};

#[test]
fn default_block_for_mask_zero() {
    for seed in 0..100 {
        let mut d = SplitMix64::new(seed);
        let v4 = UniqueV4CidrGenerator::new(10, 0).generate(&mut d).unwrap();
        assert_eq!(v4, vec!["0.0.0.0/0".to_string()]);
        let v6 = UniqueV6CidrGenerator::new(10, 0).generate(&mut d).unwrap();
        assert_eq!(v6, vec!["::/0".to_string()]);
    }
}

#[test]
fn ten_blocks_of_mask_31() {
    for seed in 0..200 {
        let mut d = SplitMix64::new(seed);
        let cidrs = UniqueV4CidrGenerator::new(10, 31).generate(&mut d).unwrap();
        assert_eq!(cidrs.len(), 10);
        let distinct: HashSet<&String> = cidrs.iter().collect();
        assert_eq!(distinct.len(), 10);
        for c in &cidrs {
            assert!(c.ends_with("/31"));
            assert_ne!(c, "0.0.0.0/31");
        }
    }
}

#[test]
fn count_zero_gives_no_blocks() {
    for mask in [0u8, 1, 8, 32] {
        let mut d = SplitMix64::new(3);
        assert!(UniqueV4CidrGenerator::new(0, mask).generate(&mut d).unwrap().is_empty());
    }
    for mask in [0u8, 1, 64, 128] {
        let mut d = SplitMix64::new(3);
        assert!(UniqueV6CidrGenerator::new(0, mask).generate(&mut d).unwrap().is_empty());
    }
}

#[test]
fn count_capped_by_the_nonzero_blocks() {
    let mut d = SplitMix64::new(11);
    assert_eq!(
        UniqueV4CidrGenerator::new(10, 1).generate(&mut d).unwrap(),
        vec!["128.0.0.0/1".to_string()]
    );
    assert_eq!(UniqueV4CidrGenerator::new(10, 2).generate(&mut d).unwrap().len(), 3);
    assert_eq!(UniqueV4CidrGenerator::new(10, 3).generate(&mut d).unwrap().len(), 7);
    assert_eq!(UniqueV6CidrGenerator::new(10, 2).generate(&mut d).unwrap().len(), 3);
    assert_eq!(UniqueV4CidrGenerator::new(10, 32).generate(&mut d).unwrap().len(), 10);
    assert_eq!(UniqueV6CidrGenerator::new(10, 128).generate(&mut d).unwrap().len(), 10);
    assert_eq!(UniqueV4CidrGenerator::new(65535, 16).generate(&mut d).unwrap().len(), 65535);
}

#[test]
fn walk_from_seed_is_sequential() {
    assert_eq!(
        v4_blocks_from_seed(3, 8, 0x1000_0000),
        vec!["16.0.0.0/8".to_string(), "17.0.0.0/8".to_string(), "18.0.0.0/8".to_string()]
    );
}

#[test]
fn walk_wraps_past_the_last_block() {
    assert_eq!(
        v4_blocks_from_seed(10, 2, 0xC000_0000),
        vec!["192.0.0.0/2".to_string(), "64.0.0.0/2".to_string(), "128.0.0.0/2".to_string()]
    );
    assert_eq!(
        v4_blocks_from_seed(2, 32, u32::MAX),
        vec!["255.255.255.255/32".to_string(), "0.0.0.1/32".to_string()]
    );
    assert!(v4_blocks_from_seed(5, 0, 0x1234_5678).is_empty());
}

#[test]
fn walk_from_seed_v6() {
    assert_eq!(
        v6_blocks_from_seed(2, 16, 0x2001u128 << 112),
        vec!["2001:0:0:0:0:0:0:0/16".to_string(), "2002:0:0:0:0:0:0:0/16".to_string()]
    );
    assert_eq!(
        v6_blocks_from_seed(2, 128, u128::MAX),
        vec![
            "ffff:ffff:ffff:ffff:ffff:ffff:ffff:ffff/128".to_string(),
            "0:0:0:0:0:0:0:1/128".to_string()
        ]
    );
    assert_eq!(
        v6_blocks_from_seed(1, 1, 1),
        vec!["8000:0:0:0:0:0:0:0/1".to_string()]
    );
}

#[test]
fn address_texts() {
    assert_eq!(ipv4_string(0x0A00_0001), "10.0.0.1");
    assert_eq!(ipv4_string(0), "0.0.0.0");
    assert_eq!(ipv4_string(u32::MAX), "255.255.255.255");
    assert_eq!(ipv6_string(0), "::");
    assert_eq!(ipv6_string(1), "0:0:0:0:0:0:0:1");
    assert_eq!(ipv6_string((0x2001_0db8u128 << 96) | 0xff), "2001:db8:0:0:0:0:0:ff");
    assert_eq!(v4_cidr_string(0xC0A8_0100, 24), "192.168.1.0/24");
    assert_eq!(v6_cidr_string(0, 0), "::/0");
    assert_eq!(mac_string(0x1234_5678_9abc), "bc:9a:78:56:34:12");
    assert_eq!(mac_string(1), "01:00:00:00:00:00");
    assert_eq!(zero_padded5(42), "00042");
    assert_eq!(zero_padded5(1), "00001");
    assert_eq!(decimal_string(0), "0");
    assert_eq!(decimal_string(4_294_967_295), "4294967295");
}

#[test]
fn blocks_are_masked_to_the_prefix() {
    assert_eq!(v4cdir_from_bytes(0xC0A8_01FF, 24), "192.168.1.0/24");
    assert_eq!(v4cdir_from_bytes(0xC0A8_01FF, 32), "192.168.1.255/32");
    assert_eq!(v4cdir_from_bytes(0xC0A8_01FF, 0), "0.0.0.0/0");
    assert_eq!(v6cdir_from_bytes(u128::MAX, 0), "::/0");
    assert_eq!(v6cdir_from_bytes(u128::MAX, 16), "ffff:0:0:0:0:0:0:0/16");
}

#[test]
fn shifts_by_the_full_width_give_zero() {
    assert_eq!(unbounded_shl_u32(1, 32), 0);
    assert_eq!(unbounded_shl_u32(1, 31), 0x8000_0000);
    assert_eq!(unbounded_shr_u32(u32::MAX, 32), 0);
    assert_eq!(unbounded_shr_u32(u32::MAX, 0), u32::MAX);
    assert_eq!(unbounded_shl_u128(1, 128), 0);
    assert_eq!(unbounded_shl_u128(1, 127), 1u128 << 127);
    assert_eq!(unbounded_shr_u128(u128::MAX, 128), 0);
    assert_eq!(unbounded_shr_u128(u128::MAX, 120), 0xff);
}

#[test]
fn draws_fit_their_range() {
    assert_eq!(fit_u64(7, 1, 3), 2);
    assert_eq!(fit_u64(u64::MAX, 0, u64::MAX), u64::MAX);
    assert_eq!(fit_u64(10, 5, 5), 5);
    let mut d = SplitMix64::new(9);
    for _ in 0..1000 {
        let v = gen_u8(&mut d, 3, 9).unwrap();
        assert!((3..=9).contains(&v));
        let n = gen_usize(&mut d, 0, 2).unwrap();
        assert!(n <= 2);
    }
}

#[test]
fn replay_driver_runs_dry() {
    let mut d = ReplayDriver::new(vec![5, 6]);
    assert_eq!(d.next_u64(), Some(5));
    assert_eq!(d.next_u64(), Some(6));
    assert_eq!(d.next_u64(), None);
    assert_eq!(d.next_u64(), None);
}

#[test]
fn exhausted_source_fails_generation() {
    let mut d = ReplayDriver::new(vec![]);
    assert!(Ipv4AddrString::generate(&mut d).is_none());
    let mut d = ReplayDriver::new(vec![]);
    assert!(GatewayConfig::generate(&mut d).is_none());
    let mut d = ReplayDriver::new(vec![1, 2, 3]);
    assert!(Vpc::generate(&mut d).is_none());
    let mut d = ReplayDriver::new(vec![]);
    assert!(UniqueV4CidrGenerator::new(4, 8).generate(&mut d).is_none());
}

#[test]
fn replay_is_deterministic() {
    let words: Vec<u64> = (0..4096u64).map(|i| i.wrapping_mul(0x9e37_79b9_7f4a_7c15)).collect();
    let a = GatewayConfig::generate(&mut ReplayDriver::new(words.clone()));
    let b = GatewayConfig::generate(&mut ReplayDriver::new(words));
    assert_eq!(a, b);
}

#[test]
fn choose_one_picks_a_choice() {
    let mut d = SplitMix64::new(1);
    assert_eq!(choose_one::<u8, _>(&mut d, vec![]), None);
    assert_eq!(choose_one(&mut d, vec![7u8]), Some(7));
    for _ in 0..100 {
        let v = choose_one(&mut d, vec![Some(1u8), None]).unwrap();
        assert!(v == Some(1) || v.is_none());
    }
}

#[test]
fn names_from_an_alphabet() {
    let mut d = SplitMix64::new(5);
    for _ in 0..200 {
        let s = gen_from_chars(&mut d, ALPHA_NUMERIC_CHARS, 5, 5).unwrap();
        assert_eq!(s.len(), 5);
        assert!(s.chars().all(|c| c.is_ascii_alphanumeric()));
        let k = K8sObjectNameString::generate(&mut d).unwrap().0;
        assert!((2..=63).contains(&k.len()));
        let first = k.chars().next().unwrap();
        let last = k.chars().last().unwrap();
        assert!(first.is_ascii_lowercase() || first.is_ascii_digit());
        assert!(last.is_ascii_lowercase() || last.is_ascii_digit());
        assert!(k.chars().all(|c| c.is_ascii_lowercase() || c.is_ascii_digit() || c == '-'));
        let mac = MacAddrString::generate(&mut d).unwrap().0;
        assert_eq!(mac.len(), 17);
        assert_eq!(mac, mac.to_lowercase());
    }
    let mut d = ReplayDriver::new(vec![]);
    assert!(gen_from_chars(&mut d, ALPHA_NUMERIC_CHARS, 1, 3).is_none());
    let mut d = SplitMix64::new(5);
    assert_eq!(gen_from_chars(&mut d, "", 0, 0), Some(String::new()));
    assert_eq!(gen_from_chars(&mut d, "", 1, 1), None);
}

#[test]
fn numbered_interface_names() {
    let mut d = SplitMix64::new(8);
    let names = LinuxIfNamesGenerator { count: 3 }.generate(&mut d).unwrap();
    assert_eq!(names.len(), 3);
    for (i, n) in names.iter().enumerate() {
        assert!(n.ends_with(&i.to_string()));
        assert!(n.len() >= 2 && n.len() <= 9);
    }
}

#[test]
fn vpc_interface_names_are_unique_and_short() {
    for seed in 0..500 {
        let mut d = SplitMix64::new(seed);
        let vpc = Vpc::generate(&mut d).unwrap();
        let names: HashSet<&String> = vpc.interfaces.iter().map(|i| &i.name).collect();
        assert_eq!(names.len(), vpc.interfaces.len());
        for (i, intf) in vpc.interfaces.iter().enumerate() {
            assert!(intf.name.len() <= 16);
            assert!(intf.name.ends_with(&i.to_string()));
        }
        assert!((1..(1 << 20)).contains(&vpc.vni));
        assert_eq!(vpc.id.len(), 5);
    }
}

#[test]
fn overlay_with_three_vpcs_numbers_them_in_order() {
    let mut found = false;
    for seed in 0..1000 {
        let mut d = SplitMix64::new(seed);
        let overlay = Overlay::generate(&mut d).unwrap();
        for (k, vpc) in overlay.vpcs.iter().enumerate() {
            let expected = format!("{:05}", k + 1);
            assert_eq!(vpc.id, expected);
            assert_eq!(vpc.name, expected);
            assert_eq!(vpc.vni as usize, k + 1);
        }
        for (k, p) in overlay.peerings.iter().enumerate() {
            assert_eq!(p.name, format!("peering{k}"));
            assert_eq!(p.entries.len(), 2);
        }
        if overlay.vpcs.len() == 3 {
            found = true;
            let ids: Vec<&str> = overlay.vpcs.iter().map(|v| v.id.as_str()).collect();
            assert_eq!(ids, vec!["00001", "00002", "00003"]);
        }
    }
    assert!(found);
}

#[test]
fn neighbor_families_never_repeat() {
    let mut saw_two = false;
    for seed in 0..2000 {
        let mut d = SplitMix64::new(seed);
        let n = BgpNeighbor::generate(&mut d).unwrap();
        assert!(n.af_activate.len() <= 2);
        if n.af_activate.len() == 2 {
            saw_two = true;
            assert_ne!(n.af_activate[0], n.af_activate[1]);
        }
    }
    assert!(saw_two);
}

#[test]
fn gateway_config_is_complete() {
    for seed in 0..200 {
        let mut d = SplitMix64::new(seed);
        let c = GatewayConfig::generate(&mut d).unwrap();
        assert!((0..=1000).contains(&c.generation));
        assert!(c.device.is_some());
        assert!(c.overlay.is_some());
        let underlay = c.underlay.unwrap();
        assert_eq!(underlay.vrfs.len(), 1);
        if let Some(router) = &underlay.vrfs[0].router {
            assert!(router.route_maps.is_empty());
            assert!(router.asn.parse::<u32>().is_ok());
            assert_eq!(router.router_id.split('.').count(), 4);
        }
    }
}

fn filler(first: &[u64], n: u64) -> Vec<u64> {
    let mut words = first.to_vec();
    let mut d = SplitMix64::new(77);
    for _ in 0..n {
        words.push(d.next_u64().unwrap());
    }
    words
}

#[test]
fn mask_zero_needs_no_entropy() {
    let mut d = ReplayDriver::new(vec![]);
    assert_eq!(
        UniqueV4CidrGenerator::new(3, 0).generate(&mut d),
        Some(vec!["0.0.0.0/0".to_string()])
    );
    let mut d = ReplayDriver::new(vec![]);
    assert_eq!(UniqueV6CidrGenerator::new(3, 0).generate(&mut d), Some(vec!["::/0".to_string()]));
    // With no blocks asked for, nothing is drawn: the word stays for the next draw.
    let mut d = ReplayDriver::new(vec![42]);
    assert_eq!(UniqueV4CidrGenerator::new(0, 0).generate(&mut d), Some(vec![]));
    assert_eq!(d.next_u64(), Some(42));
    // A non-zero mask draws its seed even for no blocks.
    let mut d = ReplayDriver::new(vec![42]);
    assert_eq!(UniqueV4CidrGenerator::new(0, 8).generate(&mut d), Some(vec![]));
    assert_eq!(d.next_u64(), None);
}

#[test]
fn overlay_counts_follow_the_first_words() {
    let mut d = ReplayDriver::new(filler(&[3, 13], 20000));
    let overlay = Overlay::generate(&mut d).unwrap();
    assert_eq!(overlay.vpcs.len(), 3);
    assert_eq!(overlay.peerings.len(), 2);
    let ids: Vec<&str> = overlay.vpcs.iter().map(|v| v.id.as_str()).collect();
    assert_eq!(ids, vec!["00001", "00002", "00003"]);
    let names: Vec<&str> = overlay.vpcs.iter().map(|v| v.name.as_str()).collect();
    assert_eq!(names, vec!["00001", "00002", "00003"]);
}

#[test]
fn choices_follow_the_words() {
    let mut d = ReplayDriver::new(vec![5]);
    assert_eq!(choose_one(&mut d, vec!['a', 'b', 'c']), Some('c'));
    let mut d = ReplayDriver::new(vec![1, 0, 1]);
    assert_eq!(gen_from_chars(&mut d, "xyz", 1, 3), Some("xy".to_string()));
    let mut d = ReplayDriver::new(vec![0x2000_0001 - 0x1000_0000]);
    assert_eq!(Ipv4AddrString::generate(&mut d).unwrap().0, "32.0.0.1");
}
