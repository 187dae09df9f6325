//! Primitive generators: names, address texts, address blocks, and the
//! allocator of unique address blocks.

use vstd::prelude::*;
use vstd::arithmetic::power2::pow2;
use crate::driver::{
    Driver, answered, drew, drew_words, extends, fit, word, word_pair, gen_u8, gen_u32, gen_u64, gen_u128,
    gen_any_u32, gen_bool, gen_usize,
};
use vstd::string::{StringExecFns, StrSliceExecFns};
use crate::text::{
    digit_char, ipv4_text, ipv6_text, v4_cidr_text, v6_cidr_text, v4_cidr_string, v6_cidr_string,
    lemma_v4_cidr_text_injective, lemma_v6_cidr_text_injective, ipv4_string, ipv6_string,
    mac_text, mac_string, push_char,
};

verus! {

/// Index of the `k`-th step of a walk over the block indices `1..=n` that
/// starts at `first` and wraps from `n` back to 1.
pub open spec fn walk_index(first: nat, k: nat, n: nat) -> nat {
    (((first - 1 + k) as nat) % n) + 1
}

/// How many steps a walk takes: the request, capped by the `n` indices.
pub open spec fn walk_len(count: nat, n: nat) -> nat {
    if count <= n {
        count
    } else {
        n
    }
}

/// A walk starts where it is put.
pub proof fn lemma_walk_first(first: nat, n: nat)
    requires
        1 <= first <= n,
    ensures
        walk_index(first, 0, n) == first,
{
    vstd::arithmetic::div_mod::lemma_small_mod((first - 1) as nat, n);
}

/// One step of a walk moves to the next index, and from `n` back to 1.
pub proof fn lemma_walk_step(first: nat, k: nat, n: nat)
    requires
        1 <= first,
        1 <= n,
    ensures
        1 <= walk_index(first, k, n) <= n,
        walk_index(first, k + 1, n) == if walk_index(first, k, n) == n {
            1
        } else {
            walk_index(first, k, n) + 1
        },
{
    let x = (first - 1 + k) as int;
    let t = x % (n as int);
    let q = x / (n as int);
    vstd::arithmetic::div_mod::lemma_fundamental_div_mod(x, n as int);
    vstd::arithmetic::div_mod::lemma_mod_bound(x, n as int);
    assert(x == q * n + t) by (nonlinear_arith)
        requires
            x == n * q + t,
    ;
    if t + 1 < n {
        vstd::arithmetic::div_mod::lemma_fundamental_div_mod_converse(x + 1, n as int, q, t + 1);
    } else {
        assert(x + 1 == (q + 1) * n + 0) by (nonlinear_arith)
            requires
                x == q * n + t,
                t + 1 == n,
        ;
        vstd::arithmetic::div_mod::lemma_fundamental_div_mod_converse(x + 1, n as int, q + 1, 0);
    }
}

/// A walk of fewer than `n` steps visits no index twice.
pub proof fn lemma_walk_distinct(first: nat, k1: nat, k2: nat, n: nat)
    requires
        1 <= first,
        k1 < k2 < n,
    ensures
        walk_index(first, k1, n) != walk_index(first, k2, n),
{
    let x1 = (first - 1 + k1) as int;
    let x2 = (first - 1 + k2) as int;
    vstd::arithmetic::div_mod::lemma_fundamental_div_mod(x1, n as int);
    vstd::arithmetic::div_mod::lemma_fundamental_div_mod(x2, n as int);
    let q1 = x1 / (n as int);
    let q2 = x2 / (n as int);
    if x1 % (n as int) == x2 % (n as int) {
        assert(x2 - x1 == (q2 - q1) * n) by (nonlinear_arith)
            requires
                x1 == n * q1 + x1 % (n as int),
                x2 == n * q2 + x2 % (n as int),
                x1 % (n as int) == x2 % (n as int),
        ;
        assert(false) by (nonlinear_arith)
            requires
                x2 - x1 == (q2 - q1) * n,
                0 < x2 - x1 < n,
        ;
    }
}

/// Shift left that yields zero once the amount reaches the width.
pub open spec fn shl_or_zero_u32(x: u32, amt: u32) -> u32 {
    if amt >= 32 {
        0
    } else {
        x << amt
    }
}

/// Shift right that yields zero once the amount reaches the width.
pub open spec fn shr_or_zero_u32(x: u32, amt: u32) -> u32 {
    if amt >= 32 {
        0
    } else {
        x >> amt
    }
}

/// Shift left that yields zero once the amount reaches the width.
pub open spec fn shl_or_zero_u128(x: u128, amt: u32) -> u128 {
    if amt >= 128 {
        0
    } else {
        x << amt
    }
}

/// Shift right that yields zero once the amount reaches the width.
pub open spec fn shr_or_zero_u128(x: u128, amt: u32) -> u128 {
    if amt >= 128 {
        0
    } else {
        x >> amt
    }
}

pub fn unbounded_shl_u32(x: u32, amt: u32) -> (r: u32)
    ensures
        r == shl_or_zero_u32(x, amt),
{
    if amt >= 32 {
        0
    } else {
        x << amt
    }
}

pub fn unbounded_shr_u32(x: u32, amt: u32) -> (r: u32)
    ensures
        r == shr_or_zero_u32(x, amt),
{
    if amt >= 32 {
        0
    } else {
        x >> amt
    }
}

pub fn unbounded_shl_u128(x: u128, amt: u32) -> (r: u128)
    ensures
        r == shl_or_zero_u128(x, amt),
{
    if amt >= 128 {
        0
    } else {
        x << amt
    }
}

pub fn unbounded_shr_u128(x: u128, amt: u32) -> (r: u128)
    ensures
        r == shr_or_zero_u128(x, amt),
{
    if amt >= 128 {
        0
    } else {
        x >> amt
    }
}

/// The network mask of IPv4 prefix length `m`: its `m` high bits set.
pub open spec fn v4_net_mask(m: nat) -> u32 {
    shl_or_zero_u32(u32::MAX, (32 - m) as u32)
}

/// The network mask of IPv6 prefix length `m`: its `m` high bits set.
pub open spec fn v6_net_mask(m: nat) -> u128 {
    shl_or_zero_u128(u128::MAX, (128 - m) as u32)
}

/// The text of the IPv4 block of prefix length `mask` that holds `addr_bytes`.
pub fn v4cdir_from_bytes(addr_bytes: u32, mask: u8) -> (r: String)
    requires
        mask <= 32,
    ensures
        r@ == v4_cidr_text(addr_bytes & v4_net_mask(mask as nat), mask as nat),
{
    let and_mask = unbounded_shl_u32(u32::MAX, 32 - mask as u32);
    v4_cidr_string(addr_bytes & and_mask, mask)
}

/// The text of the IPv6 block of prefix length `mask` that holds `addr_bytes`.
pub fn v6cdir_from_bytes(addr_bytes: u128, mask: u8) -> (r: String)
    requires
        mask <= 128,
    ensures
        r@ == v6_cidr_text(addr_bytes & v6_net_mask(mask as nat), mask as nat),
{
    let and_mask = unbounded_shl_u128(u128::MAX, 128 - mask as u32);
    v6_cidr_string(addr_bytes & and_mask, mask)
}

/// The largest block index of IPv4 prefix length `m`: `2^m - 1`.
pub open spec fn v4_index_mask(m: nat) -> u32 {
    shr_or_zero_u32(u32::MAX, (32 - m) as u32)
}

/// The largest block index of IPv6 prefix length `m`: `2^m - 1`.
pub open spec fn v6_index_mask(m: nat) -> u128 {
    shr_or_zero_u128(u128::MAX, (128 - m) as u32)
}

/// The block index where a walk from `seed` starts: the seed's `m` high
/// bits, or 1 where those are all zero.
pub open spec fn v4_first_index(seed: u32, m: nat) -> nat {
    let s = shr_or_zero_u32(seed, (32 - m) as u32);
    if s == 0 {
        1
    } else {
        s as nat
    }
}

/// The address of the `k`-th block that the walk from `seed` hands out.
pub open spec fn v4_block_addr(seed: u32, m: nat, k: nat) -> u32 {
    shl_or_zero_u32(
        walk_index(v4_first_index(seed, m), k, v4_index_mask(m) as nat) as u32,
        (32 - m) as u32,
    )
}

/// The texts of the blocks that the walk from `seed` yields.
pub open spec fn v4_walk_texts(count: nat, m: nat, seed: u32) -> Seq<Seq<char>> {
    Seq::new(
        walk_len(count, v4_index_mask(m) as nat),
        |k: int| v4_cidr_text(v4_block_addr(seed, m, k as nat), m),
    )
}

/// The blocks of prefix length `mask` that the walk from `seed` yields,
/// `min(count, 2^mask - 1)` of them.
pub fn v4_blocks_from_seed(count: u16, mask: u8, seed: u32) -> (r: Vec<String>)
    requires
        mask <= 32,
    ensures
        texts(r@) == v4_walk_texts(count as nat, mask as nat, seed),
        mask > 0 ==> unique_v4_blocks(texts(r@), count as nat, mask as nat),
        r@.len() == walk_len(count as nat, v4_index_mask(mask as nat) as nat),
        forall|k: int|
            0 <= k < r@.len() ==> #[trigger] r@[k]@ == v4_cidr_text(
                v4_block_addr(seed, mask as nat, k as nat),
                mask as nat,
            ),
{
    let shift = 32 - mask as u32;
    let available_addrs = unbounded_shl_u32(1, mask as u32);
    let addr_bytes_mask = unbounded_shr_u32(u32::MAX, shift);
    proof {
        if mask == 0 {
            assert(available_addrs == 1) by (bit_vector)
                requires
                    available_addrs == 1u32 << 0u32,
            ;
        } else if mask < 32 {
            assert(available_addrs == (addr_bytes_mask + 1) as u32) by (bit_vector)
                requires
                    1 <= mask < 32,
                    available_addrs == 1u32 << (mask as u32),
                    addr_bytes_mask == u32::MAX >> shift,
                    shift == 32 - mask,
            ;
            assert(addr_bytes_mask < u32::MAX) by (bit_vector)
                requires
                    1 <= shift < 32,
                    addr_bytes_mask == u32::MAX >> shift,
            ;
        }
    }
    let max_to_generate: u16 = if available_addrs > 0 {
        let avail = available_addrs - 1;
        if avail < count as u32 {
            avail as u16
        } else {
            count
        }
    } else {
        count
    };
    let mut cidrs: Vec<String> = Vec::with_capacity(count as usize);
    let mut addrs_left = max_to_generate;
    let mut addr_bytes = unbounded_shr_u32(seed, shift);
    let ghost n = addr_bytes_mask as nat;
    let ghost first = v4_first_index(seed, mask as nat);
    proof {
        if mask > 0 {
            assert(addr_bytes <= addr_bytes_mask && addr_bytes_mask >= 1) by (bit_vector)
                requires
                    shift < 32,
                    addr_bytes == seed >> shift,
                    addr_bytes_mask == u32::MAX >> shift,
            ;
            lemma_walk_first(first, n);
            assert(0u32 & addr_bytes_mask == 0) by (bit_vector);
        }
        if mask == 32 {
            assert(u32::MAX >> 0u32 == u32::MAX) by (bit_vector);
        }
    }
    while addrs_left > 0
        invariant
            mask <= 32,
            shift == 32 - mask,
            n == addr_bytes_mask as nat,
            addr_bytes_mask == v4_index_mask(mask as nat),
            first == v4_first_index(seed, mask as nat),
            cidrs@.len() + addrs_left == walk_len(count as nat, n),
            addrs_left > 0 ==> mask > 0,
            mask > 0 ==> 1 <= first <= n,
            mask > 0 ==> ({
                let j = walk_index(first, cidrs@.len(), n);
                if j == 1 {
                    addr_bytes == 1 || addr_bytes & addr_bytes_mask == 0
                } else {
                    addr_bytes == j
                }
            }),
            forall|k: int|
                0 <= k < cidrs@.len() ==> #[trigger] cidrs@[k]@ == v4_cidr_text(
                    v4_block_addr(seed, mask as nat, k as nat),
                    mask as nat,
                ),
        decreases addrs_left,
    {
        let ghost k = cidrs@.len();
        let ghost j = walk_index(first, k, n);
        proof {
            lemma_walk_step(first, k, n);
            assert(n >= 1);
            assert(j <= addr_bytes_mask);
            let ju = j as u32;
            assert((ju & addr_bytes_mask) == ju) by (bit_vector)
                requires
                    ju <= addr_bytes_mask,
                    addr_bytes_mask == u32::MAX >> shift,
                    shift < 32,
            ;
            assert(1u32 & addr_bytes_mask == 1) by (bit_vector)
                requires
                    addr_bytes_mask >= 1,
                    addr_bytes_mask == u32::MAX >> shift,
                    shift < 32,
            ;
        }
        if addr_bytes & addr_bytes_mask == 0 {
            addr_bytes = 1;
        }
        assert(addr_bytes == j);
        let placed = unbounded_shl_u32(addr_bytes, shift);
        proof {
            assert((placed & (u32::MAX << shift)) == placed) by (bit_vector)
                requires
                    shift < 32,
                    placed == addr_bytes << shift,
            ;
        }
        let cidr = v4cdir_from_bytes(placed, mask);
        let ghost before = cidrs@;
        cidrs.push(cidr);
        addrs_left = addrs_left - 1;
        addr_bytes = addr_bytes.wrapping_add(1);
        proof {
            let j2 = walk_index(first, k + 1, n);
            if j == n {
                assert(addr_bytes & addr_bytes_mask == 0) by (bit_vector)
                    requires
                        shift < 32,
                        addr_bytes_mask == u32::MAX >> shift,
                        addr_bytes == (if addr_bytes_mask == u32::MAX {
                            0u32
                        } else {
                            (addr_bytes_mask + 1) as u32
                        }),
                ;
            }
            assert forall|i: int| 0 <= i < cidrs@.len() implies #[trigger] cidrs@[i]@
                == v4_cidr_text(v4_block_addr(seed, mask as nat, i as nat), mask as nat) by {
                if i == k {
                } else {
                    assert(cidrs@[i] == before[i]);
                }
            }
        }
    }
    proof {
        if mask > 0 {
            lemma_v4_seeded_blocks(cidrs@, count as nat, mask as nat, seed);
        }
    }
    assert(texts(cidrs@) =~= v4_walk_texts(count as nat, mask as nat, seed));
    cidrs
}

/// The block index where a walk from `seed` starts: the seed's `m` high
/// bits, or 1 where those are all zero.
pub open spec fn v6_first_index(seed: u128, m: nat) -> nat {
    let s = shr_or_zero_u128(seed, (128 - m) as u32);
    if s == 0 {
        1
    } else {
        s as nat
    }
}

/// The address of the `k`-th block that the walk from `seed` hands out.
pub open spec fn v6_block_addr(seed: u128, m: nat, k: nat) -> u128 {
    shl_or_zero_u128(
        walk_index(v6_first_index(seed, m), k, v6_index_mask(m) as nat) as u128,
        (128 - m) as u32,
    )
}

/// The texts of the blocks that the walk from `seed` yields.
pub open spec fn v6_walk_texts(count: nat, m: nat, seed: u128) -> Seq<Seq<char>> {
    Seq::new(
        walk_len(count, v6_index_mask(m) as nat),
        |k: int| v6_cidr_text(v6_block_addr(seed, m, k as nat), m),
    )
}

/// The blocks of prefix length `mask` that the walk from `seed` yields,
/// `min(count, 2^mask - 1)` of them.
pub fn v6_blocks_from_seed(count: u16, mask: u8, seed: u128) -> (r: Vec<String>)
    requires
        mask <= 128,
    ensures
        texts(r@) == v6_walk_texts(count as nat, mask as nat, seed),
        mask > 0 ==> unique_v6_blocks(texts(r@), count as nat, mask as nat),
        r@.len() == walk_len(count as nat, v6_index_mask(mask as nat) as nat),
        forall|k: int|
            0 <= k < r@.len() ==> #[trigger] r@[k]@ == v6_cidr_text(
                v6_block_addr(seed, mask as nat, k as nat),
                mask as nat,
            ),
{
    let shift = 128 - mask as u32;
    let available_addrs = unbounded_shl_u128(1, mask as u32);
    let addr_bytes_mask = unbounded_shr_u128(u128::MAX, shift);
    proof {
        if mask == 0 {
            assert(available_addrs == 1) by (bit_vector)
                requires
                    available_addrs == 1u128 << 0u32,
            ;
        } else if mask < 128 {
            assert(available_addrs == (addr_bytes_mask + 1) as u128) by (bit_vector)
                requires
                    1 <= mask < 128,
                    available_addrs == 1u128 << (mask as u32),
                    addr_bytes_mask == u128::MAX >> shift,
                    shift == 128 - mask,
            ;
            assert(addr_bytes_mask < u128::MAX) by (bit_vector)
                requires
                    1 <= shift < 128,
                    addr_bytes_mask == u128::MAX >> shift,
            ;
        }
    }
    let max_to_generate: u16 = if available_addrs > 0 {
        let avail = available_addrs - 1;
        if avail < count as u128 {
            avail as u16
        } else {
            count
        }
    } else {
        count
    };
    let mut cidrs: Vec<String> = Vec::with_capacity(count as usize);
    let mut addrs_left = max_to_generate;
    let mut addr_bytes = unbounded_shr_u128(seed, shift);
    let ghost n = addr_bytes_mask as nat;
    let ghost first = v6_first_index(seed, mask as nat);
    proof {
        if mask > 0 {
            assert(addr_bytes <= addr_bytes_mask && addr_bytes_mask >= 1) by (bit_vector)
                requires
                    shift < 128,
                    addr_bytes == seed >> shift,
                    addr_bytes_mask == u128::MAX >> shift,
            ;
            lemma_walk_first(first, n);
            assert(0u128 & addr_bytes_mask == 0) by (bit_vector);
        }
        if mask == 128 {
            assert(u128::MAX >> 0u32 == u128::MAX) by (bit_vector);
        }
    }
    while addrs_left > 0
        invariant
            mask <= 128,
            shift == 128 - mask,
            n == addr_bytes_mask as nat,
            addr_bytes_mask == v6_index_mask(mask as nat),
            first == v6_first_index(seed, mask as nat),
            cidrs@.len() + addrs_left == walk_len(count as nat, n),
            addrs_left > 0 ==> mask > 0,
            mask > 0 ==> 1 <= first <= n,
            mask > 0 ==> ({
                let j = walk_index(first, cidrs@.len(), n);
                if j == 1 {
                    addr_bytes == 1 || addr_bytes & addr_bytes_mask == 0
                } else {
                    addr_bytes == j
                }
            }),
            forall|k: int|
                0 <= k < cidrs@.len() ==> #[trigger] cidrs@[k]@ == v6_cidr_text(
                    v6_block_addr(seed, mask as nat, k as nat),
                    mask as nat,
                ),
        decreases addrs_left,
    {
        let ghost k = cidrs@.len();
        let ghost j = walk_index(first, k, n);
        proof {
            lemma_walk_step(first, k, n);
            assert(n >= 1);
            assert(j <= addr_bytes_mask);
            let ju = j as u128;
            assert((ju & addr_bytes_mask) == ju) by (bit_vector)
                requires
                    ju <= addr_bytes_mask,
                    addr_bytes_mask == u128::MAX >> shift,
                    shift < 128,
            ;
            assert(1u128 & addr_bytes_mask == 1) by (bit_vector)
                requires
                    addr_bytes_mask >= 1,
                    addr_bytes_mask == u128::MAX >> shift,
                    shift < 128,
            ;
        }
        if addr_bytes & addr_bytes_mask == 0 {
            addr_bytes = 1;
        }
        assert(addr_bytes == j);
        let placed = unbounded_shl_u128(addr_bytes, shift);
        proof {
            assert((placed & (u128::MAX << shift)) == placed) by (bit_vector)
                requires
                    shift < 128,
                    placed == addr_bytes << shift,
            ;
        }
        let cidr = v6cdir_from_bytes(placed, mask);
        let ghost before = cidrs@;
        cidrs.push(cidr);
        addrs_left = addrs_left - 1;
        addr_bytes = addr_bytes.wrapping_add(1);
        proof {
            let j2 = walk_index(first, k + 1, n);
            if j == n {
                assert(addr_bytes & addr_bytes_mask == 0) by (bit_vector)
                    requires
                        shift < 128,
                        addr_bytes_mask == u128::MAX >> shift,
                        addr_bytes == (if addr_bytes_mask == u128::MAX {
                            0u128
                        } else {
                            (addr_bytes_mask + 1) as u128
                        }),
                ;
            }
            assert forall|i: int| 0 <= i < cidrs@.len() implies #[trigger] cidrs@[i]@
                == v6_cidr_text(v6_block_addr(seed, mask as nat, i as nat), mask as nat) by {
                if i == k {
                } else {
                    assert(cidrs@[i] == before[i]);
                }
            }
        }
    }
    proof {
        if mask > 0 {
            lemma_v6_seeded_blocks(cidrs@, count as nat, mask as nat, seed);
        }
    }
    assert(texts(cidrs@) =~= v6_walk_texts(count as nat, mask as nat, seed));
    cidrs
}

/// The texts of a list of strings.
pub open spec fn texts(v: Seq<String>) -> Seq<Seq<char>> {
    v.map_values(|s: String| s@)
}

/// No text occurs twice.
pub open spec fn distinct_texts(b: Seq<Seq<char>>) -> bool {
    forall|i: int, j: int| 0 <= i < j < b.len() ==> b[i] != b[j]
}

/// How many blocks the allocator returns for `count` requested blocks of
/// prefix length `m`: the single default block for `m = 0`, otherwise as
/// many as requested, capped by the `2^m - 1` non-zero blocks.
pub open spec fn block_count(count: nat, m: nat) -> nat {
    if m == 0 {
        if count > 0 {
            1
        } else {
            0
        }
    } else {
        walk_len(count, (pow2(m) - 1) as nat)
    }
}

/// `t` is the text of an IPv4 block of prefix length `m` whose address has
/// no bit set beyond the prefix.
pub open spec fn is_v4_block(t: Seq<char>, m: nat) -> bool {
    exists|a: u32| a & v4_net_mask(m) == a && t == v4_cidr_text(a, m)
}

/// `t` is the text of an IPv6 block of prefix length `m` whose address has
/// no bit set beyond the prefix.
pub open spec fn is_v6_block(t: Seq<char>, m: nat) -> bool {
    exists|a: u128| a & v6_net_mask(m) == a && t == v6_cidr_text(a, m)
}

/// What the IPv4 allocator returns for `count` blocks of prefix length `m`:
/// the right number of distinct, aligned blocks, none of them the zero block
/// unless the prefix length is zero.
pub open spec fn unique_v4_blocks(b: Seq<Seq<char>>, count: nat, m: nat) -> bool {
    &&& b.len() == block_count(count, m)
    &&& distinct_texts(b)
    &&& forall|i: int| 0 <= i < b.len() ==> is_v4_block(#[trigger] b[i], m)
    &&& m > 0 ==> forall|i: int| 0 <= i < b.len() ==> #[trigger] b[i] != v4_cidr_text(0, m)
}

/// What the IPv6 allocator returns for `count` blocks of prefix length `m`.
pub open spec fn unique_v6_blocks(b: Seq<Seq<char>>, count: nat, m: nat) -> bool {
    &&& b.len() == block_count(count, m)
    &&& distinct_texts(b)
    &&& forall|i: int| 0 <= i < b.len() ==> is_v6_block(#[trigger] b[i], m)
    &&& m > 0 ==> forall|i: int| 0 <= i < b.len() ==> #[trigger] b[i] != v6_cidr_text(0, m)
}

/// `2^a * 2^b - 1` divided by `2^b` is `2^a - 1`.
proof fn lemma_all_ones_div(a: nat, b: nat)
    ensures
        ((pow2(a + b) - 1) as nat) / pow2(b) == (pow2(a) - 1) as nat,
{
    vstd::arithmetic::power2::lemma_pow2_adds(a, b);
    vstd::arithmetic::power2::lemma_pow2_pos(a);
    vstd::arithmetic::power2::lemma_pow2_pos(b);
    let pa = pow2(a) as int;
    let pb = pow2(b) as int;
    assert(pa * pb - 1 == (pa - 1) * pb + (pb - 1)) by (nonlinear_arith);
    vstd::arithmetic::div_mod::lemma_fundamental_div_mod_converse(pa * pb - 1, pb, pa - 1, pb - 1);
}

/// The largest IPv4 block index of prefix length `m` is `2^m - 1`.
pub proof fn lemma_v4_index_mask(m: nat)
    requires
        m <= 32,
    ensures
        v4_index_mask(m) as nat == pow2(m) - 1,
{
    if m == 0 {
        vstd::arithmetic::power2::lemma2_to64();
    } else {
        let s = (32 - m) as u32;
        vstd::bits::lemma_u32_shr_is_div(u32::MAX, s);
        vstd::arithmetic::power2::lemma2_to64();
        lemma_all_ones_div(m, s as nat);
    }
}

/// The largest IPv6 block index of prefix length `m` is `2^m - 1`.
pub proof fn lemma_v6_index_mask(m: nat)
    requires
        m <= 128,
    ensures
        v6_index_mask(m) as nat == pow2(m) - 1,
{
    vstd::arithmetic::power2::lemma_pow2_pos(m);
    if m == 0 {
        vstd::arithmetic::power2::lemma2_to64();
    } else {
        let s = (128 - m) as u32;
        vstd::bits::lemma_u128_shr_is_div(u128::MAX, s as u128);
        assert(u128::MAX >> s == u128::MAX >> (s as u128)) by (bit_vector);
        vstd::arithmetic::power2::lemma2_to64();
        vstd::arithmetic::power2::lemma_pow2_adds(64, 64);
        assert(pow2(128) == u128::MAX + 1);
        lemma_all_ones_div(m, s as nat);
    }
}

/// Each block of a walk from `seed` is aligned to the prefix and non-zero.
pub proof fn lemma_v4_walk_block(seed: u32, m: nat, k: nat)
    requires
        1 <= m <= 32,
        k < v4_index_mask(m),
    ensures
        v4_block_addr(seed, m, k) & v4_net_mask(m) == v4_block_addr(seed, m, k),
        v4_block_addr(seed, m, k) != 0,
{
    let s = (32 - m) as u32;
    let n = v4_index_mask(m);
    let first = v4_first_index(seed, m);
    assert(shr_or_zero_u32(seed, s) <= n) by (bit_vector)
        requires
            s < 32,
            n == u32::MAX >> s,
            shr_or_zero_u32(seed, s) == seed >> s,
    ;
    lemma_walk_step(first, k, n as nat);
    let j = walk_index(first, k, n as nat) as u32;
    assert(((j << s) & (u32::MAX << s)) == (j << s) && (j << s) != 0) by (bit_vector)
        requires
            s < 32,
            n == u32::MAX >> s,
            1 <= j <= n,
    ;
}

/// The blocks of a walk from `seed` are aligned to the prefix, non-zero, and
/// pairwise different while the walk is shorter than the index space.
pub proof fn lemma_v4_walk_blocks(seed: u32, m: nat, k1: nat, k2: nat)
    requires
        1 <= m <= 32,
        k1 < k2 < v4_index_mask(m),
    ensures
        v4_block_addr(seed, m, k1) & v4_net_mask(m) == v4_block_addr(seed, m, k1),
        v4_block_addr(seed, m, k1) != 0,
        v4_block_addr(seed, m, k2) & v4_net_mask(m) == v4_block_addr(seed, m, k2),
        v4_block_addr(seed, m, k2) != 0,
        v4_block_addr(seed, m, k1) != v4_block_addr(seed, m, k2),
{
    let s = (32 - m) as u32;
    let n = v4_index_mask(m);
    let first = v4_first_index(seed, m);
    assert(shr_or_zero_u32(seed, s) <= n) by (bit_vector)
        requires
            s < 32,
            n == u32::MAX >> s,
            shr_or_zero_u32(seed, s) == seed >> s,
    ;
    lemma_walk_step(first, k1, n as nat);
    lemma_walk_step(first, k2, n as nat);
    lemma_walk_distinct(first, k1, k2, n as nat);
    let j1 = walk_index(first, k1, n as nat) as u32;
    let j2 = walk_index(first, k2, n as nat) as u32;
    assert(((j1 << s) & (u32::MAX << s)) == (j1 << s) && (j1 << s) != 0 && ((j2 << s) & (
    u32::MAX << s)) == (j2 << s) && (j2 << s) != 0 && (j1 << s) != (j2 << s)) by (bit_vector)
        requires
            s < 32,
            n == u32::MAX >> s,
            1 <= j1 <= n,
            1 <= j2 <= n,
            j1 != j2,
    ;
}

/// Each block of a walk from `seed` is aligned to the prefix and non-zero.
pub proof fn lemma_v6_walk_block(seed: u128, m: nat, k: nat)
    requires
        1 <= m <= 128,
        k < v6_index_mask(m),
    ensures
        v6_block_addr(seed, m, k) & v6_net_mask(m) == v6_block_addr(seed, m, k),
        v6_block_addr(seed, m, k) != 0,
{
    let s = (128 - m) as u32;
    let n = v6_index_mask(m);
    let first = v6_first_index(seed, m);
    assert(shr_or_zero_u128(seed, s) <= n) by (bit_vector)
        requires
            s < 128,
            n == u128::MAX >> s,
            shr_or_zero_u128(seed, s) == seed >> s,
    ;
    lemma_walk_step(first, k, n as nat);
    let j = walk_index(first, k, n as nat) as u128;
    assert(((j << s) & (u128::MAX << s)) == (j << s) && (j << s) != 0) by (bit_vector)
        requires
            s < 128,
            n == u128::MAX >> s,
            1 <= j <= n,
    ;
}

/// The blocks of a walk from `seed` are aligned to the prefix, non-zero, and
/// pairwise different while the walk is shorter than the index space.
pub proof fn lemma_v6_walk_blocks(seed: u128, m: nat, k1: nat, k2: nat)
    requires
        1 <= m <= 128,
        k1 < k2 < v6_index_mask(m),
    ensures
        v6_block_addr(seed, m, k1) & v6_net_mask(m) == v6_block_addr(seed, m, k1),
        v6_block_addr(seed, m, k1) != 0,
        v6_block_addr(seed, m, k2) & v6_net_mask(m) == v6_block_addr(seed, m, k2),
        v6_block_addr(seed, m, k2) != 0,
        v6_block_addr(seed, m, k1) != v6_block_addr(seed, m, k2),
{
    let s = (128 - m) as u32;
    let n = v6_index_mask(m);
    let first = v6_first_index(seed, m);
    assert(shr_or_zero_u128(seed, s) <= n) by (bit_vector)
        requires
            s < 128,
            n == u128::MAX >> s,
            shr_or_zero_u128(seed, s) == seed >> s,
    ;
    lemma_walk_step(first, k1, n as nat);
    lemma_walk_step(first, k2, n as nat);
    lemma_walk_distinct(first, k1, k2, n as nat);
    let j1 = walk_index(first, k1, n as nat) as u128;
    let j2 = walk_index(first, k2, n as nat) as u128;
    assert(((j1 << s) & (u128::MAX << s)) == (j1 << s) && (j1 << s) != 0 && ((j2 << s) & (
    u128::MAX << s)) == (j2 << s) && (j2 << s) != 0 && (j1 << s) != (j2 << s)) by (bit_vector)
        requires
            s < 128,
            n == u128::MAX >> s,
            1 <= j1 <= n,
            1 <= j2 <= n,
            j1 != j2,
    ;
}

/// The blocks of a walk from `seed` are as many as `block_count` says,
/// pairwise different, aligned, and never the zero block.
pub proof fn lemma_v4_seeded_blocks(blocks: Seq<String>, count: nat, mask: nat, seed: u32)
    requires
        1 <= mask <= 32,
        blocks.len() == walk_len(count, v4_index_mask(mask) as nat),
        forall|k: int|
            0 <= k < blocks.len() ==> #[trigger] blocks[k]@ == v4_cidr_text(
                v4_block_addr(seed, mask, k as nat),
                mask,
            ),
    ensures
        unique_v4_blocks(texts(blocks), count, mask),
{
    let b = texts(blocks);
    lemma_v4_index_mask(mask);
    assert forall|i: int, j: int| 0 <= i < j < b.len() implies b[i] != b[j] by {
        lemma_v4_walk_blocks(seed, mask, i as nat, j as nat);
        if b[i] == b[j] {
            assert(b[i] == blocks[i]@);
            assert(b[j] == blocks[j]@);
            lemma_v4_cidr_text_injective(
                v4_block_addr(seed, mask, i as nat),
                mask,
                v4_block_addr(seed, mask, j as nat),
                mask,
            );
        }
    }
    assert forall|i: int| 0 <= i < b.len() implies is_v4_block(#[trigger] b[i], mask) && b[i]
        != v4_cidr_text(0, mask) by {
        lemma_v4_walk_block(seed, mask, i as nat);
        assert(b[i] == blocks[i]@);
        if b[i] == v4_cidr_text(0, mask) {
            lemma_v4_cidr_text_injective(v4_block_addr(seed, mask, i as nat), mask, 0, mask);
        }
    }
}

/// A generator of a list of address-block texts.
pub trait CidrListGenerator {
    /// The generator is set up so that it can run.
    spec fn ready(&self) -> bool;

    /// What every list that the generator returns satisfies.
    spec fn accepts(&self, blocks: Seq<Seq<char>>) -> bool;

    /// The list that the generator returns for the words it drew.
    spec fn yields(&self, words: Seq<u64>, blocks: Seq<Seq<char>>) -> bool;

    /// The generator fails whenever the source refuses a request.
    spec fn strict(&self) -> bool;

    fn generate<D: Driver>(&self, d: &mut D) -> (r: Option<Vec<String>>)
        requires
            self.ready(),
        ensures
            extends(final(d).drawn(), old(d).drawn()),
            old(d).refused() <= final(d).refused(),
            r is None ==> old(d).refused() < final(d).refused(),
            self.strict() ==> answered(*old(d), *final(d), r),
            old(d).inexhaustible() ==> r is Some && final(d).inexhaustible(),
            r matches Some(v) ==> self.accepts(texts(v@)) && self.yields(
                drew(*old(d), *final(d)),
                texts(v@),
            ),
    ;
}

/// Allocates `count` unique IPv4 blocks of prefix length `mask`.
#[derive(Debug)]
pub struct UniqueV4CidrGenerator {
    pub count: u16,
    pub mask: u8,
}

impl UniqueV4CidrGenerator {
    pub fn new(count: u16, mask: u8) -> (r: Self)
        ensures
            r.count == count,
            r.mask == mask,
    {
        Self { count, mask }
    }
}

impl CidrListGenerator for UniqueV4CidrGenerator {
    open spec fn ready(&self) -> bool {
        self.mask <= 32
    }

    open spec fn accepts(&self, blocks: Seq<Seq<char>>) -> bool {
        unique_v4_blocks(blocks, self.count as nat, self.mask as nat)
    }

    /// The default block alone for prefix length 0, nothing for no blocks,
    /// otherwise the walk from the seed that the drawn words select.
    open spec fn yields(&self, words: Seq<u64>, blocks: Seq<Seq<char>>) -> bool {
        if self.count == 0 {
            blocks.len() == 0
        } else if self.mask == 0 {
            blocks == seq![v4_cidr_text(0, 0)]
        } else {
            words.len() == 1 && blocks == v4_walk_texts(
                self.count as nat,
                self.mask as nat,
                fit(words[0] as nat, 0x1000_0000, u32::MAX as nat) as u32,
            )
        }
    }

    /// The default block does not depend on the draw.
    open spec fn strict(&self) -> bool {
        self.mask > 0 || self.count == 0
    }

    /// For prefix length 0 and some blocks, one word is asked for and the
    /// default block returned whatever the answer; for prefix length 0 and
    /// no blocks nothing is asked for.
    fn generate<D: Driver>(&self, d: &mut D) -> (r: Option<Vec<String>>)
        ensures
            self.mask == 0 && self.count > 0 ==> r is Some && final(d).refused()
                + drew(*old(d), *final(d)).len() == old(d).refused() + 1,
            self.mask == 0 && self.count == 0 ==> r is Some && final(d).drawn() == old(d).drawn()
                && final(d).refused() == old(d).refused(),
            self.mask > 0 ==> drew_words(*old(d), *final(d), r, 1),
    {
        if self.mask == 0 && self.count == 0 {
            let cidrs: Vec<String> = Vec::new();
            proof {
                assert(texts(cidrs@) =~= Seq::<Seq<char>>::empty());
                assert(drew(*old(d), *d) =~= Seq::<u64>::empty());
            }
            return Some(cidrs);
        }
        if self.mask == 0 {
            // The draw keeps the shape of the entropy stream the same for every mask.
            let _ = gen_any_u32(d);
            let mut cidrs: Vec<String> = Vec::new();
            cidrs.push(String::from_str("0.0.0.0/0"));
            proof {
                reveal_strlit("0.0.0.0/0");
                lemma_v4_default_block();
                assert(texts(cidrs@) =~= seq![v4_cidr_text(0, 0)]);
                assert(0u32 & v4_net_mask(0) == 0u32) by (bit_vector);
            }
            return Some(cidrs);
        }
        let addr_bytes_seed = gen_u32(d, 0x1000_0000, u32::MAX)?;
        let cidrs = v4_blocks_from_seed(self.count, self.mask, addr_bytes_seed);
        Some(cidrs)
    }
}

/// The default IPv4 block reads "0.0.0.0/0".
pub proof fn lemma_v4_default_block()
    ensures
        v4_cidr_text(0, 0) == "0.0.0.0/0"@,
{
    reveal_strlit("0.0.0.0/0");
    assert((0u32 >> 24u32) & 0xffu32 == 0 && (0u32 >> 16u32) & 0xffu32 == 0 && (0u32 >> 8u32)
        & 0xffu32 == 0 && 0u32 & 0xffu32 == 0) by (bit_vector);
    assert(crate::text::dec(0) =~= seq!['0']);
    assert(v4_cidr_text(0, 0) =~= "0.0.0.0/0"@);
}

/// The default IPv6 block reads "::/0".
pub proof fn lemma_v6_default_block()
    ensures
        v6_cidr_text(0, 0) == "::/0"@,
{
    reveal_strlit("::/0");
    assert(crate::text::dec(0) =~= seq!['0']);
    assert(v6_cidr_text(0, 0) =~= "::/0"@);
}

/// The blocks of a walk from `seed` are as many as `block_count` says,
/// pairwise different, aligned, and never the zero block.
pub proof fn lemma_v6_seeded_blocks(blocks: Seq<String>, count: nat, mask: nat, seed: u128)
    requires
        1 <= mask <= 128,
        blocks.len() == walk_len(count, v6_index_mask(mask) as nat),
        forall|k: int|
            0 <= k < blocks.len() ==> #[trigger] blocks[k]@ == v6_cidr_text(
                v6_block_addr(seed, mask, k as nat),
                mask,
            ),
    ensures
        unique_v6_blocks(texts(blocks), count, mask),
{
    let b = texts(blocks);
    lemma_v6_index_mask(mask);
    assert forall|i: int, j: int| 0 <= i < j < b.len() implies b[i] != b[j] by {
        lemma_v6_walk_blocks(seed, mask, i as nat, j as nat);
        if b[i] == b[j] {
            assert(b[i] == blocks[i]@);
            assert(b[j] == blocks[j]@);
            lemma_v6_cidr_text_injective(
                v6_block_addr(seed, mask, i as nat),
                mask,
                v6_block_addr(seed, mask, j as nat),
                mask,
            );
        }
    }
    assert forall|i: int| 0 <= i < b.len() implies is_v6_block(#[trigger] b[i], mask) && b[i]
        != v6_cidr_text(0, mask) by {
        lemma_v6_walk_block(seed, mask, i as nat);
        assert(b[i] == blocks[i]@);
        if b[i] == v6_cidr_text(0, mask) {
            lemma_v6_cidr_text_injective(v6_block_addr(seed, mask, i as nat), mask, 0, mask);
        }
    }
}

/// Allocates `count` unique IPv6 blocks of prefix length `mask`.
#[derive(Debug)]
pub struct UniqueV6CidrGenerator {
    pub count: u16,
    pub mask: u8,
}

impl UniqueV6CidrGenerator {
    pub fn new(count: u16, mask: u8) -> (r: Self)
        ensures
            r.count == count,
            r.mask == mask,
    {
        Self { count, mask }
    }
}

impl CidrListGenerator for UniqueV6CidrGenerator {
    open spec fn ready(&self) -> bool {
        self.mask <= 128
    }

    open spec fn accepts(&self, blocks: Seq<Seq<char>>) -> bool {
        unique_v6_blocks(blocks, self.count as nat, self.mask as nat)
    }

    /// The default block alone for prefix length 0, nothing for no blocks,
    /// otherwise the walk from the seed that the drawn words select.
    open spec fn yields(&self, words: Seq<u64>, blocks: Seq<Seq<char>>) -> bool {
        if self.count == 0 {
            blocks.len() == 0
        } else if self.mask == 0 {
            blocks == seq![v6_cidr_text(0, 0)]
        } else {
            words.len() == 2 && blocks == v6_walk_texts(
                self.count as nat,
                self.mask as nat,
                fit(words[0] as nat * 0x1_0000_0000_0000_0000 + words[1] as nat, 1, u128::MAX as nat) as u128,
            )
        }
    }

    /// The default block does not depend on the draw.
    open spec fn strict(&self) -> bool {
        self.mask > 0 || self.count == 0
    }

    /// For prefix length 0 and some blocks, one word is asked for and the
    /// default block returned whatever the answer; for prefix length 0 and
    /// no blocks nothing is asked for.
    fn generate<D: Driver>(&self, d: &mut D) -> (r: Option<Vec<String>>)
        ensures
            self.mask == 0 && self.count > 0 ==> r is Some && final(d).refused()
                + drew(*old(d), *final(d)).len() == old(d).refused() + 1,
            self.mask == 0 && self.count == 0 ==> r is Some && final(d).drawn() == old(d).drawn()
                && final(d).refused() == old(d).refused(),
            self.mask > 0 && r is Some ==> drew(*old(d), *final(d)).len() == 2,
    {
        if self.mask == 0 && self.count == 0 {
            let cidrs: Vec<String> = Vec::new();
            proof {
                assert(texts(cidrs@) =~= Seq::<Seq<char>>::empty());
                assert(drew(*old(d), *d) =~= Seq::<u64>::empty());
            }
            return Some(cidrs);
        }
        if self.mask == 0 {
            // The draw keeps the shape of the entropy stream the same for every mask.
            let _ = gen_any_u32(d);
            let mut cidrs: Vec<String> = Vec::new();
            cidrs.push(String::from_str("::/0"));
            proof {
                reveal_strlit("::/0");
                lemma_v6_default_block();
                assert(texts(cidrs@) =~= seq![v6_cidr_text(0, 0)]);
                assert(0u128 & v6_net_mask(0) == 0u128) by (bit_vector);
            }
            return Some(cidrs);
        }
        let addr_bytes_seed = gen_u128(d, 1, u128::MAX)?;
        let cidrs = v6_blocks_from_seed(self.count, self.mask, addr_bytes_seed);
        Some(cidrs)
    }
}

/// Every character of `s` is one of `alphabet`.
pub open spec fn drawn_from(s: Seq<char>, alphabet: Seq<char>) -> bool {
    forall|i: int| 0 <= i < s.len() ==> alphabet.contains(#[trigger] s[i])
}

/// A string of `min..=max` characters, each drawn from `chars`.
pub fn gen_from_chars<D: Driver>(d: &mut D, chars: &str, min: usize, max: usize) -> (r: Option<
    String,
>)
    requires
        min <= max,
    ensures
        chars@.len() > 0 ==> answered(*old(d), *final(d), r),
        r matches Some(s) ==> min <= s@.len() <= max && drawn_from(s@, chars@),
        r matches Some(s) ==> {
            let w = drew(*old(d), *final(d));
            &&& w.len() == s@.len() + 1
            &&& s@.len() == fit(w[0] as nat, min as nat, max as nat)
            &&& forall|j: int|
                0 <= j < s@.len() ==> s@[j] == chars@[fit(
                    w[j + 1] as nat,
                    0,
                    (chars@.len() - 1) as nat,
                ) as int]
        },
{
    let len = gen_usize(d, min, max)?;
    let ghost d1 = *d;
    let n = chars.unicode_len();
    let mut out = String::new();
    let mut i: usize = 0;
    while i < len
        invariant
            old(d).inexhaustible() ==> d.inexhaustible(),
            extends(d.drawn(), old(d).drawn()),
            d.refused() == old(d).refused(),
            i <= len,
            n as nat == chars@.len(),
            min <= len <= max,
            out@.len() == i,
            drawn_from(out@, chars@),
            len == fit(word(*old(d), d1, 0), min as nat, max as nat),
            drew(*old(d), d1).len() == 1,
            extends(d1.drawn(), old(d).drawn()),
            extends(d.drawn(), d1.drawn()),
            d1.refused() == old(d).refused(),
            drew(d1, *d).len() == i,
            forall|j: int|
                0 <= j < i ==> out@[j] == chars@[fit(drew(d1, *d)[j] as nat, 0, (n - 1) as nat) as int],
        decreases len - i,
    {
        if n == 0 {
            return None;
        }
        let ghost dp = *d;
        let idx = gen_usize(d, 0, n - 1)?;
        let c = chars.get_char(idx);
        let ghost before = out@;
        push_char(&mut out, c);
        assert(drew(d1, *d) =~= drew(d1, dp).push(drew(dp, *d)[0]));
        assert forall|j: int| 0 <= j < i + 1 implies out@[j] == chars@[fit(
            drew(d1, *d)[j] as nat,
            0,
            (n - 1) as nat,
        ) as int] by {
            if j < i {
                assert(out@[j] == before[j]);
            }
        }
        assert forall|j: int| 0 <= j < out@.len() implies chars@.contains(#[trigger] out@[j]) by {
            if j < before.len() {
                assert(out@[j] == before[j]);
            } else {
                assert(chars@[idx as int] == out@[j]);
            }
        }
        i = i + 1;
    }
    proof {
        let w = drew(*old(d), *d);
        assert(w =~= drew(*old(d), d1) + drew(d1, *d));
    }
    Some(out)
}

/// `t` is the text of some IPv4 address.
pub open spec fn is_ipv4_text(t: Seq<char>) -> bool {
    exists|a: u32| t == ipv4_text(a)
}

/// `t` is the text of some IPv6 address.
pub open spec fn is_ipv6_text(t: Seq<char>) -> bool {
    exists|a: u128| t == ipv6_text(a)
}

/// `t` is the text of an IPv4 block of some prefix length up to 32.
pub open spec fn is_v4_cidr(t: Seq<char>) -> bool {
    exists|m: nat| m <= 32 && is_v4_block(t, m)
}

/// `t` is the text of an IPv6 block of some prefix length up to 128.
pub open spec fn is_v6_cidr(t: Seq<char>) -> bool {
    exists|m: nat| m <= 128 && is_v6_block(t, m)
}

/// Every text is an IPv4 block.
pub open spec fn all_v4_cidrs(b: Seq<Seq<char>>) -> bool {
    forall|i: int| 0 <= i < b.len() ==> is_v4_cidr(#[trigger] b[i])
}

/// Every text is an IPv6 block.
pub open spec fn all_v6_cidrs(b: Seq<Seq<char>>) -> bool {
    forall|i: int| 0 <= i < b.len() ==> is_v6_cidr(#[trigger] b[i])
}

/// Text of an IPv4 address outside the lowest reserved block and other than
/// the broadcast address.
pub struct Ipv4AddrString(pub String);

impl Ipv4AddrString {
    pub fn generate<D: Driver>(d: &mut D) -> (r: Option<Self>)
        ensures
            answered(*old(d), *final(d), r),
            drew_words(*old(d), *final(d), r, 1),
            r matches Some(v) ==> v.0@ == ipv4_text(
                fit(word(*old(d), *final(d), 0), 0x1000_0000, 0xffff_fffe) as u32,
            ),
    {
        let a = gen_u32(d, 0x1000_0000, 0xffff_fffe)?;
        Some(Ipv4AddrString(ipv4_string(a)))
    }
}

/// Text of an IPv6 address other than the unspecified and all-ones addresses.
pub struct Ipv6AddrString(pub String);

impl Ipv6AddrString {
    pub fn generate<D: Driver>(d: &mut D) -> (r: Option<Self>)
        ensures
            answered(*old(d), *final(d), r),
            r matches Some(v) ==> exists|a: u128| 1 <= a < u128::MAX && v.0@ == ipv6_text(a),
            r matches Some(v) ==> v.0@ == ipv6_text(
                fit(word_pair(*old(d), *final(d), 0), 1, (u128::MAX - 1) as nat) as u128,
            ),
    {
        let a = gen_u128(d, 1, u128::MAX - 1)?;
        Some(Ipv6AddrString(ipv6_string(a)))
    }
}

/// Text of an address of either family.
pub struct IpAddrString(pub String);

impl IpAddrString {
    pub fn generate<D: Driver>(d: &mut D) -> (r: Option<Self>)
        ensures
            answered(*old(d), *final(d), r),
            r matches Some(v) ==> is_ipv4_text(v.0@) || is_ipv6_text(v.0@),
            r matches Some(v) ==> (word(*old(d), *final(d), 0) % 2 == 1 ==> is_ipv4_text(v.0@)),
            r matches Some(v) ==> (word(*old(d), *final(d), 0) % 2 == 0 ==> is_ipv6_text(v.0@)),
    {
        let is_ipv4 = gen_bool(d)?;
        let ghost d1 = *d;
        assert(drew(*old(d), d1).len() == 1);
        if is_ipv4 {
            Some(IpAddrString(Ipv4AddrString::generate(d)?.0))
        } else {
            Some(IpAddrString(Ipv6AddrString::generate(d)?.0))
        }
    }
}

/// Text of an IPv4 block of a random prefix length.
pub struct V4CidrString(pub String);

impl V4CidrString {
    pub fn generate<D: Driver>(d: &mut D) -> (r: Option<Self>)
        ensures
            answered(*old(d), *final(d), r),
            r matches Some(v) ==> is_v4_cidr(v.0@),
            r matches Some(v) ==> {
                let m = fit(word(*old(d), *final(d), 0), 0, 32);
                let a = (word(*old(d), *final(d), 1) % 0x1_0000_0000) as u32;
                v.0@ == v4_cidr_text(a & v4_net_mask(m), m)
            },
    {
        let ghost d0 = *d;
        let mask = gen_u8(d, 0, 32)?;
        let ghost d1 = *d;
        let addr_bytes = gen_any_u32(d)?;
        let cidr = v4cdir_from_bytes(addr_bytes, mask);
        assert(drew(d0, *d) =~= drew(d0, d1) + drew(d1, *d));
        proof {
            let a = addr_bytes & v4_net_mask(mask as nat);
            let nm = v4_net_mask(mask as nat);
            assert(a & nm == a) by (bit_vector)
                requires
                    a == addr_bytes & nm,
            ;
            assert(is_v4_block(cidr@, mask as nat));
        }
        Some(V4CidrString(cidr))
    }
}

/// Text of an IPv6 block of a random prefix length.
pub struct V6CidrString(pub String);

impl V6CidrString {
    pub fn generate<D: Driver>(d: &mut D) -> (r: Option<Self>)
        ensures
            answered(*old(d), *final(d), r),
            r matches Some(v) ==> is_v6_cidr(v.0@),
            r matches Some(v) ==> {
                let m = fit(word(*old(d), *final(d), 0), 0, 128);
                let a = fit(word_pair(*old(d), *final(d), 1), 0, u128::MAX as nat) as u128;
                v.0@ == v6_cidr_text(a & v6_net_mask(m), m)
            },
    {
        let ghost d0 = *d;
        let mask = gen_u8(d, 0, 128)?;
        let ghost d1 = *d;
        let addr_bytes = gen_u128(d, 0, u128::MAX)?;
        let cidr = v6cdir_from_bytes(addr_bytes, mask);
        assert(drew(d0, *d) =~= drew(d0, d1) + drew(d1, *d));
        proof {
            let a = addr_bytes & v6_net_mask(mask as nat);
            let nm = v6_net_mask(mask as nat);
            assert(a & nm == a) by (bit_vector)
                requires
                    a == addr_bytes & nm,
            ;
            assert(is_v6_block(cidr@, mask as nat));
        }
        Some(V6CidrString(cidr))
    }
}

/// Text of an address block of either family.
pub struct CidrString(pub String);

impl CidrString {
    pub fn generate<D: Driver>(d: &mut D) -> (r: Option<Self>)
        ensures
            answered(*old(d), *final(d), r),
            r matches Some(v) ==> is_v4_cidr(v.0@) || is_v6_cidr(v.0@),
            r matches Some(v) ==> (word(*old(d), *final(d), 0) % 2 == 1 ==> is_v4_cidr(v.0@)),
            r matches Some(v) ==> (word(*old(d), *final(d), 0) % 2 == 0 ==> is_v6_cidr(v.0@)),
    {
        let is_ipv4 = gen_bool(d)?;
        let ghost d1 = *d;
        assert(drew(*old(d), d1).len() == 1);
        if is_ipv4 {
            Some(CidrString(V4CidrString::generate(d)?.0))
        } else {
            Some(CidrString(V6CidrString::generate(d)?.0))
        }
    }
}

pub const ALPHA_NUMERIC_CHARS: &'static str = "0123456789abcdefghijklmnopqrstuvwxyzABCDEFGHIJKLMNOPQRSTUVWXYZ";

/// Text of a MAC address, always in lower case so that equal addresses have
/// equal texts.
pub struct MacAddrString(pub String);

impl MacAddrString {
    pub fn generate<D: Driver>(d: &mut D) -> (r: Option<Self>)
        ensures
            answered(*old(d), *final(d), r),
            drew_words(*old(d), *final(d), r, 1),
            r matches Some(v) ==> v.0@ == mac_text(
                fit(word(*old(d), *final(d), 0), 1, 0xffff_ffff_fffe) as u64,
            ),
    {
        let mac = gen_u64(d, 1, 0xffff_ffff_fffe)?;
        Some(MacAddrString(mac_string(mac)))
    }
}

pub const IF_NAME_CHARS: &'static str = "ABCDEFGHIJKLMNOPQRSTUVWXYZabcdefghijklmnopqrstuvwxyz0123456789_";

pub const IF_NAME_MAX_LEN: usize = 16;

/// A Linux interface name: one to sixteen characters of the interface-name
/// alphabet.
pub open spec fn is_if_name(t: Seq<char>) -> bool {
    1 <= t.len() <= IF_NAME_MAX_LEN && drawn_from(t, IF_NAME_CHARS@)
}

/// A Linux interface name.
pub struct LinuxIfName(pub String);

impl LinuxIfName {
    pub fn generate<D: Driver>(d: &mut D) -> (r: Option<Self>)
        ensures
            answered(*old(d), *final(d), r),
            r matches Some(v) ==> is_if_name(v.0@),
            r matches Some(v) ==> {
                let w = drew(*old(d), *final(d));
                &&& w.len() == v.0@.len() + 1
                &&& v.0@.len() == fit(w[0] as nat, 1, IF_NAME_MAX_LEN as nat)
                &&& forall|j: int|
                    0 <= j < v.0@.len() ==> v.0@[j] == IF_NAME_CHARS@[fit(w[j + 1] as nat, 0, 62) as int]
            },
    {
        proof {
            lemma_alphabet_lengths();
        }
        let name = gen_from_chars(d, IF_NAME_CHARS, 1, IF_NAME_MAX_LEN)?;
        Some(LinuxIfName(name))
    }
}

/// `names` are `count` interface names, the `i`-th a stub of one to eight
/// characters followed by the decimal text of `i`.
pub open spec fn numbered_if_names(names: Seq<Seq<char>>, count: nat) -> bool {
    &&& names.len() == count
    &&& forall|i: int|
        0 <= i < names.len() ==> exists|stub: Seq<char>|
            1 <= stub.len() <= IF_NAME_MAX_LEN - 8 && drawn_from(stub, IF_NAME_CHARS@) && #[trigger] names[i]
                == stub + crate::text::dec(i as nat)
}

/// Generates `count` interface names numbered in order.
pub struct LinuxIfNamesGenerator {
    pub count: u16,
}

impl LinuxIfNamesGenerator {
    pub fn generate<D: Driver>(&self, d: &mut D) -> (r: Option<Vec<String>>)
        ensures
            answered(*old(d), *final(d), r),
            r matches Some(v) ==> numbered_if_names(texts(v@), self.count as nat),
    {
        proof {
            lemma_alphabet_lengths();
        }
        let mut ifnames: Vec<String> = Vec::new();
        let mut i: u16 = 0;
        while i < self.count
            invariant
                old(d).inexhaustible() ==> d.inexhaustible(),
                extends(d.drawn(), old(d).drawn()),
                d.refused() == old(d).refused(),
                IF_NAME_CHARS@.len() == 63,
                i <= self.count,
                numbered_if_names(texts(ifnames@), i as nat),
            decreases self.count - i,
        {
            let mut name = gen_from_chars(d, IF_NAME_CHARS, 1, IF_NAME_MAX_LEN - 8)?;
            let ghost stub = name@;
            crate::text::push_digits(&mut name, i as u64, 10);
            let ghost before = ifnames@;
            ifnames.push(name);
            proof {
                let t = texts(ifnames@);
                assert forall|k: int| 0 <= k < t.len() implies exists|st: Seq<char>|
                    1 <= st.len() <= IF_NAME_MAX_LEN - 8 && drawn_from(st, IF_NAME_CHARS@)
                        && #[trigger] t[k] == st + crate::text::dec(k as nat) by {
                    if k < before.len() {
                        assert(t[k] == texts(before)[k]);
                    } else {
                        assert(t[k] == stub + crate::text::dec(k as nat));
                    }
                }
            }
            i = i + 1;
        }
        Some(ifnames)
    }
}

pub const K8S_END_CHAR: &'static str = "abcdefghijklmnopqrstuvwxyz0123456789";

pub const K8S_OTHER_CHARS: &'static str = "abcdefghijklmnopqrstuvwxyz0123456789-";

pub const K8S_OBJ_MAX_LEN: usize = 63;

/// An object name: two to 63 characters, the first and the last of the
/// lower-case alphanumeric alphabet, those between of that alphabet or '-'.
pub open spec fn is_object_name(t: Seq<char>) -> bool {
    &&& 2 <= t.len() <= K8S_OBJ_MAX_LEN
    &&& K8S_END_CHAR@.contains(t[0])
    &&& K8S_END_CHAR@.contains(t.last())
    &&& drawn_from(t, K8S_OTHER_CHARS@)
}

/// An object name.
pub struct K8sObjectNameString(pub String);

impl K8sObjectNameString {
    pub fn generate<D: Driver>(d: &mut D) -> (r: Option<Self>)
        ensures
            answered(*old(d), *final(d), r),
            r matches Some(v) ==> is_object_name(v.0@),
            r matches Some(v) ==> {
                let w = drew(*old(d), *final(d));
                let len = fit(w[0] as nat, 2, K8S_OBJ_MAX_LEN as nat);
                &&& w.len() >= 4
                &&& v.0@[0] == K8S_END_CHAR@[fit(w[2] as nat, 0, 35) as int]
                &&& v.0@.len() == fit(w[3] as nat, 0, (len - 2) as nat) + 2
            },
    {
        proof {
            lemma_alphabet_lengths();
        }
        let len = gen_usize(d, 2, K8S_OBJ_MAX_LEN)?;
        let ghost d1 = *d;
        let first_char = gen_from_chars(d, K8S_END_CHAR, 1, 1)?;
        let ghost d2 = *d;
        let middle_chars = gen_from_chars(d, K8S_OTHER_CHARS, 0, len - 2)?;
        let ghost d3 = *d;
        let end_char = gen_from_chars(d, K8S_END_CHAR, 1, 1)?;
        let mut name = first_char;
        let ghost f = name@;
        let mut i: usize = 0;
        let n = middle_chars.as_str().unicode_len();
        while i < n
            invariant
                n == middle_chars@.len(),
                i <= n,
                name@ == f + middle_chars@.subrange(0, i as int),
            decreases n - i,
        {
            push_char(&mut name, middle_chars.as_str().get_char(i));
            assert(name@ =~= f + middle_chars@.subrange(0, i + 1));
            i = i + 1;
        }
        push_char(&mut name, end_char.as_str().get_char(0));
        proof {
            reveal_strlit("abcdefghijklmnopqrstuvwxyz0123456789");
            reveal_strlit("abcdefghijklmnopqrstuvwxyz0123456789-");
            assert(middle_chars@.subrange(0, n as int) =~= middle_chars@);
            let t = name@;
            assert(t[0] == f[0]);
            assert(t.last() == end_char@[0]);
            let w = drew(*old(d), *d);
            assert(w =~= drew(*old(d), d1) + drew(d1, d2) + drew(d2, d3) + drew(d3, *d));
            assert(w[2] == drew(d1, d2)[1]);
            assert(w[3] == drew(d2, d3)[0]);
            assert forall|j: int| 0 <= j < t.len() implies K8S_OTHER_CHARS@.contains(#[trigger] t[j]) by {
                let c = t[j];
                if j == 0 {
                    assert(K8S_END_CHAR@.contains(c));
                    let k = choose|k: int| 0 <= k < K8S_END_CHAR@.len() && K8S_END_CHAR@[k] == c;
                    assert(K8S_OTHER_CHARS@[k] == c);
                } else if j == t.len() - 1 {
                    assert(K8S_END_CHAR@.contains(c));
                    let k = choose|k: int| 0 <= k < K8S_END_CHAR@.len() && K8S_END_CHAR@[k] == c;
                    assert(K8S_OTHER_CHARS@[k] == c);
                } else {
                    assert(c == middle_chars@[j - 1]);
                }
            }
        }
        Some(K8sObjectNameString(name))
    }
}

/// One of `choices`, picked by a draw.
pub fn choose_one<T, D: Driver>(d: &mut D, choices: Vec<T>) -> (r: Option<T>)
    ensures
        choices@.len() > 0 ==> answered(*old(d), *final(d), r),
        choices@.len() > 0 ==> drew_words(*old(d), *final(d), r, 1),
        choices@.len() == 0 ==> r is None && final(d).drawn() == old(d).drawn()
            && final(d).refused() == old(d).refused(),
        r matches Some(v) ==> choices@.contains(v),
        r matches Some(v) ==> v == choices@[fit(
            word(*old(d), *final(d), 0),
            0,
            (choices@.len() - 1) as nat,
        ) as int],
{
    let mut choices = choices;
    let n = choices.len();
    if n == 0 {
        return None;
    }
    let index = gen_usize(d, 0, n - 1)?;
    let ghost all = choices@;
    let v = choices.swap_remove(index);
    assert(all[index as int] == v);
    Some(v)
}

/// Allocates `count` unique IPv4 interface addresses, all of one random
/// prefix length from 1 to 32.
pub struct UniqueV4InterfaceAddressGenerator {
    pub count: u16,
}

impl UniqueV4InterfaceAddressGenerator {
    pub fn new(count: u16) -> (r: Self)
        ensures
            r.count == count,
    {
        Self { count }
    }

    pub fn generate<D: Driver>(&self, d: &mut D) -> (r: Option<Vec<String>>)
        ensures
            answered(*old(d), *final(d), r),
            r matches Some(v) ==> all_v4_cidrs(texts(v@)) && distinct_texts(texts(v@)),
    {
        let mask = gen_u8(d, 1, 32)?;
        let addrs = UniqueV4CidrGenerator::new(self.count, mask).generate(d)?;
        proof {
            let b = texts(addrs@);
            assert forall|i: int| 0 <= i < b.len() implies is_v4_cidr(#[trigger] b[i]) by {
                assert(is_v4_block(b[i], mask as nat));
            }
        }
        Some(addrs)
    }
}

/// Allocates `count` unique IPv6 interface addresses, all of one random
/// prefix length from 1 to 128.
pub struct UniqueV6InterfaceAddressGenerator {
    pub count: u16,
}

impl UniqueV6InterfaceAddressGenerator {
    pub fn new(count: u16) -> (r: Self)
        ensures
            r.count == count,
    {
        Self { count }
    }

    pub fn generate<D: Driver>(&self, d: &mut D) -> (r: Option<Vec<String>>)
        ensures
            answered(*old(d), *final(d), r),
            r matches Some(v) ==> all_v6_cidrs(texts(v@)) && distinct_texts(texts(v@)),
    {
        let mask = gen_u8(d, 1, 128)?;
        let addrs = UniqueV6CidrGenerator::new(self.count, mask).generate(d)?;
        proof {
            let b = texts(addrs@);
            assert forall|i: int| 0 <= i < b.len() implies is_v6_cidr(#[trigger] b[i]) by {
                assert(is_v6_block(b[i], mask as nat));
            }
        }
        Some(addrs)
    }
}

/// Every decimal digit is in the interface-name alphabet.
pub proof fn lemma_digit_in_if_alphabet(k: nat)
    requires
        k < 10,
    ensures
        IF_NAME_CHARS@.contains(digit_char(k)),
{
    reveal_strlit("ABCDEFGHIJKLMNOPQRSTUVWXYZabcdefghijklmnopqrstuvwxyz0123456789_");
    assert(IF_NAME_CHARS@[52 + k as int] == digit_char(k));
}

/// The alphabets hold the characters they list.
pub proof fn lemma_alphabet_lengths()
    ensures
        ALPHA_NUMERIC_CHARS@.len() == 62,
        IF_NAME_CHARS@.len() == 63,
        K8S_END_CHAR@.len() == 36,
        K8S_OTHER_CHARS@.len() == 37,
{
    reveal_strlit("0123456789abcdefghijklmnopqrstuvwxyzABCDEFGHIJKLMNOPQRSTUVWXYZ");
    reveal_strlit("ABCDEFGHIJKLMNOPQRSTUVWXYZabcdefghijklmnopqrstuvwxyz0123456789_");
    reveal_strlit("abcdefghijklmnopqrstuvwxyz0123456789");
    reveal_strlit("abcdefghijklmnopqrstuvwxyz0123456789-");
}

/// Every decimal digit is in the alphanumeric alphabet.
pub proof fn lemma_digit_in_alnum(k: nat)
    requires
        k < 10,
    ensures
        ALPHA_NUMERIC_CHARS@.contains(digit_char(k)),
{
    reveal_strlit("0123456789abcdefghijklmnopqrstuvwxyzABCDEFGHIJKLMNOPQRSTUVWXYZ");
    assert(ALPHA_NUMERIC_CHARS@[k as int] == digit_char(k));
}

/// A stub of the interface-name alphabet followed by a one-digit number is
/// an interface name ending in that digit.
pub proof fn lemma_numbered_if_name(stub: Seq<char>, k: nat)
    requires
        stub.len() < IF_NAME_MAX_LEN,
        drawn_from(stub, IF_NAME_CHARS@),
        k < 10,
    ensures
        is_if_name(stub + crate::text::dec(k)),
        (stub + crate::text::dec(k)).last() == digit_char(k),
{
    let t = stub + crate::text::dec(k);
    assert(crate::text::dec(k) =~= seq![digit_char(k)]);
    lemma_digit_in_if_alphabet(k);
    assert forall|i: int| 0 <= i < t.len() implies IF_NAME_CHARS@.contains(#[trigger] t[i]) by {
        if i < stub.len() {
            assert(t[i] == stub[i]);
        }
    }
}

/// Two names that end in different digits are different.
pub proof fn lemma_numbered_names_differ(a: Seq<char>, b: Seq<char>, i: nat, j: nat)
    requires
        a.len() > 0,
        b.len() > 0,
        a.last() == digit_char(i),
        b.last() == digit_char(j),
        i < 10,
        j < 10,
        i != j,
    ensures
        a != b,
{
}

} // verus!
