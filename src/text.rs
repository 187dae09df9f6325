//! Textual forms of numbers and addresses, with proofs that the renderings
//! are injective.

use vstd::prelude::*;

verus! {

/// The character of a digit value, lower case for the values ten to fifteen.
pub open spec fn digit_char(d: nat) -> char {
    if d == 0 {
        '0'
    } else if d == 1 {
        '1'
    } else if d == 2 {
        '2'
    } else if d == 3 {
        '3'
    } else if d == 4 {
        '4'
    } else if d == 5 {
        '5'
    } else if d == 6 {
        '6'
    } else if d == 7 {
        '7'
    } else if d == 8 {
        '8'
    } else if d == 9 {
        '9'
    } else if d == 10 {
        'a'
    } else if d == 11 {
        'b'
    } else if d == 12 {
        'c'
    } else if d == 13 {
        'd'
    } else if d == 14 {
        'e'
    } else {
        'f'
    }
}

/// A decimal digit or a lower-case hexadecimal letter.
pub open spec fn is_digit_char(c: char) -> bool {
    ('0' <= c && c <= '9') || ('a' <= c && c <= 'f')
}

/// The digits of `n` in base `b`, most significant first, without leading zeros.
pub open spec fn digits(n: nat, b: nat) -> Seq<char>
    decreases n,
    via digits_decreases
{
    if b < 2 || n < b {
        seq![digit_char(n)]
    } else {
        digits(n / b, b).push(digit_char(n % b))
    }
}

#[via_fn]
proof fn digits_decreases(n: nat, b: nat) {
    if !(b < 2 || n < b) {
        lemma_quotient_smaller(n, b);
    }
}

/// Dividing by a base of two or more makes a positive number smaller.
pub proof fn lemma_quotient_smaller(n: nat, b: nat)
    requires
        2 <= b,
        b <= n,
    ensures
        n / b < n,
{
    assert(n / b < n) by (nonlinear_arith)
        requires
            2 <= b,
            b <= n,
    ;
}

/// Decimal rendering of a natural number.
pub open spec fn dec(n: nat) -> Seq<char> {
    digits(n, 10)
}

/// Lower-case hexadecimal rendering of a natural number.
pub open spec fn hex(n: nat) -> Seq<char> {
    digits(n, 16)
}

/// `a`, then the separator `c`, then `rest`.
pub open spec fn sep_join(a: Seq<char>, c: char, rest: Seq<char>) -> Seq<char> {
    a + seq![c] + rest
}

/// Dotted-decimal text of an IPv4 address, most significant octet first.
pub open spec fn ipv4_text(a: u32) -> Seq<char> {
    sep_join(
        dec(((a >> 24u32) & 0xffu32) as nat),
        '.',
        sep_join(
            dec(((a >> 16u32) & 0xffu32) as nat),
            '.',
            sep_join(dec(((a >> 8u32) & 0xffu32) as nat), '.', dec((a & 0xffu32) as nat)),
        ),
    )
}

/// The `i`-th 16-bit group of an IPv6 address, counted from the least significant.
pub open spec fn v6_group(a: u128, i: u128) -> nat {
    ((a >> (16u128 * i)) & 0xffffu128) as nat
}

/// Text of an IPv6 address: "::" for the unspecified address, otherwise
/// its full form.
pub open spec fn ipv6_text(a: u128) -> Seq<char> {
    if a == 0 {
        seq![':', ':']
    } else {
        ipv6_full_text(a)
    }
}

/// Full colon-separated hexadecimal text of an IPv6 address: eight groups,
/// most significant first, each without leading zeros.
pub open spec fn ipv6_full_text(a: u128) -> Seq<char> {
    sep_join(
        hex(v6_group(a, 7)),
        ':',
        sep_join(
            hex(v6_group(a, 6)),
            ':',
            sep_join(
                hex(v6_group(a, 5)),
                ':',
                sep_join(
                    hex(v6_group(a, 4)),
                    ':',
                    sep_join(
                        hex(v6_group(a, 3)),
                        ':',
                        sep_join(
                            hex(v6_group(a, 2)),
                            ':',
                            sep_join(hex(v6_group(a, 1)), ':', hex(v6_group(a, 0))),
                        ),
                    ),
                ),
            ),
        ),
    )
}

/// Text of an IPv4 address block: the address, a slash, the prefix length.
pub open spec fn v4_cidr_text(a: u32, m: nat) -> Seq<char> {
    ipv4_text(a) + seq!['/'] + dec(m)
}

/// Text of an IPv6 address block: the address, a slash, the prefix length.
pub open spec fn v6_cidr_text(a: u128, m: nat) -> Seq<char> {
    ipv6_text(a) + seq!['/'] + dec(m)
}

/// No element of `s` is the character `c`.
pub open spec fn free_of(s: Seq<char>, c: char) -> bool {
    forall|i: int| 0 <= i < s.len() ==> s[i] != c
}

/// Every character of `s` is a digit.
pub open spec fn all_digits(s: Seq<char>) -> bool {
    forall|i: int| 0 <= i < s.len() ==> is_digit_char(#[trigger] s[i])
}

pub proof fn lemma_digit_char(d: nat)
    requires
        d < 16,
    ensures
        is_digit_char(digit_char(d)),
{
}

/// A rendering in base two to sixteen is a non-empty run of digits, of two or
/// more digits when the number is not below the base.
pub proof fn lemma_digits_shape(n: nat, b: nat)
    requires
        2 <= b <= 16,
    ensures
        digits(n, b).len() >= 1,
        n >= b ==> digits(n, b).len() >= 2,
        all_digits(digits(n, b)),
    decreases n,
{
    if n < b {
        lemma_digit_char(n);
    } else {
        lemma_quotient_smaller(n, b);
        lemma_digits_shape(n / b, b);
        lemma_digit_char(n % b);
        let s = digits(n, b);
        assert forall|i: int| 0 <= i < s.len() implies is_digit_char(#[trigger] s[i]) by {
            if i < s.len() - 1 {
                assert(s[i] == digits(n / b, b)[i]);
            }
        }
    }
}

/// A run of digits holds none of the separators '.', ':' and '/'.
pub proof fn lemma_digits_free_of_separators(s: Seq<char>)
    requires
        all_digits(s),
    ensures
        free_of(s, '.'),
        free_of(s, ':'),
        free_of(s, '/'),
{
    assert forall|i: int| 0 <= i < s.len() implies s[i] != '.' by {
        assert(is_digit_char(s[i]));
    }
    assert forall|i: int| 0 <= i < s.len() implies s[i] != ':' by {
        assert(is_digit_char(s[i]));
    }
    assert forall|i: int| 0 <= i < s.len() implies s[i] != '/' by {
        assert(is_digit_char(s[i]));
    }
}

/// Two numbers with the same rendering in a base from two to sixteen are equal.
pub proof fn lemma_digits_injective(x: nat, y: nat, b: nat)
    requires
        2 <= b <= 16,
        digits(x, b) == digits(y, b),
    ensures
        x == y,
    decreases x,
{
    lemma_digits_shape(x, b);
    lemma_digits_shape(y, b);
    if x < b && y < b {
        assert(digits(x, b)[0] == digit_char(x));
        assert(digits(y, b)[0] == digit_char(y));
    } else if x >= b && y >= b {
        let sx = digits(x, b);
        let sy = digits(y, b);
        assert(sx.last() == digit_char(x % b));
        assert(sy.last() == digit_char(y % b));
        assert(sx.drop_last() =~= digits(x / b, b));
        assert(sy.drop_last() =~= digits(y / b, b));
        lemma_quotient_smaller(x, b);
        lemma_digits_injective(x / b, y / b, b);
        assert(x == b * (x / b) + x % b) by (nonlinear_arith)
            requires
                b > 0,
        ;
        assert(y == b * (y / b) + y % b) by (nonlinear_arith)
            requires
                b > 0,
        ;
    }
}

/// Splitting at the first separator: where neither head holds `c`, equal
/// joins have equal heads and equal rests.
pub proof fn lemma_sep_join_injective(a1: Seq<char>, r1: Seq<char>, a2: Seq<char>, r2: Seq<char>, c: char)
    requires
        free_of(a1, c),
        free_of(a2, c),
        sep_join(a1, c, r1) == sep_join(a2, c, r2),
    ensures
        a1 == a2,
        r1 == r2,
{
    let s = sep_join(a1, c, r1);
    if a1.len() < a2.len() {
        assert(s[a1.len() as int] == c);
        assert(sep_join(a2, c, r2)[a1.len() as int] == a2[a1.len() as int]);
    } else if a2.len() < a1.len() {
        assert(sep_join(a2, c, r2)[a2.len() as int] == c);
        assert(s[a2.len() as int] == a1[a2.len() as int]);
    }
    assert(a1 =~= s.subrange(0, a1.len() as int));
    assert(a2 =~= sep_join(a2, c, r2).subrange(0, a2.len() as int));
    assert(r1 =~= s.subrange(a1.len() as int + 1, s.len() as int));
    assert(r2 =~= sep_join(a2, c, r2).subrange(a2.len() as int + 1, s.len() as int));
}

/// A join holds `x` only where a part or the separator does.
pub proof fn lemma_sep_join_free_of(a: Seq<char>, c: char, r: Seq<char>, x: char)
    requires
        free_of(a, x),
        free_of(r, x),
        c != x,
    ensures
        free_of(sep_join(a, c, r), x),
{
    let s = sep_join(a, c, r);
    assert forall|i: int| 0 <= i < s.len() implies s[i] != x by {
        if i < a.len() {
            assert(s[i] == a[i]);
        } else if i > a.len() {
            assert(s[i] == r[i - a.len() - 1]);
        }
    }
}

/// The decimal rendering of a number holds no separator.
pub proof fn lemma_dec_free(n: nat)
    ensures
        free_of(dec(n), '.'),
        free_of(dec(n), ':'),
        free_of(dec(n), '/'),
{
    lemma_digits_shape(n, 10);
    lemma_digits_free_of_separators(dec(n));
}

/// The hexadecimal rendering of a number holds no separator.
pub proof fn lemma_hex_free(n: nat)
    ensures
        free_of(hex(n), '.'),
        free_of(hex(n), ':'),
        free_of(hex(n), '/'),
{
    lemma_digits_shape(n, 16);
    lemma_digits_free_of_separators(hex(n));
}

/// Different IPv4 addresses have different texts.
pub proof fn lemma_ipv4_text_injective(a: u32, b: u32)
    requires
        ipv4_text(a) == ipv4_text(b),
    ensures
        a == b,
{
    let a3 = ((a >> 24u32) & 0xffu32) as nat;
    let a2 = ((a >> 16u32) & 0xffu32) as nat;
    let a1 = ((a >> 8u32) & 0xffu32) as nat;
    let a0 = (a & 0xffu32) as nat;
    let b3 = ((b >> 24u32) & 0xffu32) as nat;
    let b2 = ((b >> 16u32) & 0xffu32) as nat;
    let b1 = ((b >> 8u32) & 0xffu32) as nat;
    let b0 = (b & 0xffu32) as nat;
    lemma_dec_free(a3);
    lemma_dec_free(a2);
    lemma_dec_free(a1);
    lemma_dec_free(b3);
    lemma_dec_free(b2);
    lemma_dec_free(b1);
    let ra = sep_join(dec(a2), '.', sep_join(dec(a1), '.', dec(a0)));
    let rb = sep_join(dec(b2), '.', sep_join(dec(b1), '.', dec(b0)));
    lemma_sep_join_injective(dec(a3), ra, dec(b3), rb, '.');
    let qa = sep_join(dec(a1), '.', dec(a0));
    let qb = sep_join(dec(b1), '.', dec(b0));
    lemma_sep_join_injective(dec(a2), qa, dec(b2), qb, '.');
    lemma_sep_join_injective(dec(a1), dec(a0), dec(b1), dec(b0), '.');
    lemma_digits_injective(a3, b3, 10);
    lemma_digits_injective(a2, b2, 10);
    lemma_digits_injective(a1, b1, 10);
    lemma_digits_injective(a0, b0, 10);
    assert(a == b) by (bit_vector)
        requires
            (a >> 24u32) & 0xffu32 == (b >> 24u32) & 0xffu32,
            (a >> 16u32) & 0xffu32 == (b >> 16u32) & 0xffu32,
            (a >> 8u32) & 0xffu32 == (b >> 8u32) & 0xffu32,
            a & 0xffu32 == b & 0xffu32,
    ;
}

/// The text of an IPv4 address holds no slash.
pub proof fn lemma_ipv4_text_free_of_slash(a: u32)
    ensures
        free_of(ipv4_text(a), '/'),
{
    lemma_dec_free(((a >> 24u32) & 0xffu32) as nat);
    lemma_dec_free(((a >> 16u32) & 0xffu32) as nat);
    lemma_dec_free(((a >> 8u32) & 0xffu32) as nat);
    lemma_dec_free((a & 0xffu32) as nat);
    let d1 = dec(((a >> 8u32) & 0xffu32) as nat);
    let d0 = dec((a & 0xffu32) as nat);
    lemma_sep_join_free_of(d1, '.', d0, '/');
    let q = sep_join(d1, '.', d0);
    let d2 = dec(((a >> 16u32) & 0xffu32) as nat);
    lemma_sep_join_free_of(d2, '.', q, '/');
    let d3 = dec(((a >> 24u32) & 0xffu32) as nat);
    lemma_sep_join_free_of(d3, '.', sep_join(d2, '.', q), '/');
}

/// Two IPv4 block texts are equal only for equal addresses and prefix lengths.
pub proof fn lemma_v4_cidr_text_injective(a: u32, m1: nat, b: u32, m2: nat)
    requires
        v4_cidr_text(a, m1) == v4_cidr_text(b, m2),
    ensures
        a == b,
        m1 == m2,
{
    lemma_ipv4_text_free_of_slash(a);
    lemma_ipv4_text_free_of_slash(b);
    assert(v4_cidr_text(a, m1) == sep_join(ipv4_text(a), '/', dec(m1)));
    assert(v4_cidr_text(b, m2) == sep_join(ipv4_text(b), '/', dec(m2)));
    lemma_sep_join_injective(ipv4_text(a), dec(m1), ipv4_text(b), dec(m2), '/');
    lemma_ipv4_text_injective(a, b);
    lemma_digits_injective(m1, m2, 10);
}

/// The right part of an IPv6 text, from group `i` down to group 0.
pub open spec fn v6_tail(a: u128, i: u128) -> Seq<char>
    decreases i,
{
    if i == 0 {
        hex(v6_group(a, 0))
    } else {
        sep_join(hex(v6_group(a, i)), ':', v6_tail(a, (i - 1) as u128))
    }
}

proof fn lemma_v6_tail_injective(a: u128, b: u128, i: u128)
    requires
        i < 8,
        v6_tail(a, i) == v6_tail(b, i),
    ensures
        forall|j: u128| j <= i ==> v6_group(a, j) == v6_group(b, j),
    decreases i,
{
    if i == 0 {
        lemma_digits_injective(v6_group(a, 0), v6_group(b, 0), 16);
    } else {
        lemma_hex_free(v6_group(a, i));
        lemma_hex_free(v6_group(b, i));
        lemma_sep_join_injective(
            hex(v6_group(a, i)),
            v6_tail(a, (i - 1) as u128),
            hex(v6_group(b, i)),
            v6_tail(b, (i - 1) as u128),
            ':',
        );
        lemma_digits_injective(v6_group(a, i), v6_group(b, i), 16);
        lemma_v6_tail_injective(a, b, (i - 1) as u128);
    }
}

proof fn lemma_v6_tail_free_of_slash(a: u128, i: u128)
    ensures
        free_of(v6_tail(a, i), '/'),
    decreases i,
{
    lemma_hex_free(v6_group(a, i));
    if i > 0 {
        lemma_v6_tail_free_of_slash(a, (i - 1) as u128);
        lemma_sep_join_free_of(hex(v6_group(a, i)), ':', v6_tail(a, (i - 1) as u128), '/');
    }
}

/// The left part of an IPv6 text, from group 7 down to group `i`.
pub open spec fn v6_head(a: u128, i: u128) -> Seq<char>
    decreases 8 - i,
{
    if i >= 8 {
        Seq::empty()
    } else if i == 7 {
        hex(v6_group(a, 7))
    } else {
        v6_head(a, (i + 1) as u128) + seq![':'] + hex(v6_group(a, i))
    }
}

proof fn lemma_ipv6_text_is_head(a: u128)
    ensures
        ipv6_full_text(a) == v6_head(a, 0),
{
    reveal_with_fuel(v6_head, 9);
    assert(ipv6_full_text(a) =~= v6_head(a, 0));
}

proof fn lemma_ipv6_text_is_tail(a: u128)
    ensures
        ipv6_full_text(a) == v6_tail(a, 7),
{
    reveal_with_fuel(v6_tail, 8);
}

proof fn lemma_v6_tail_len(a: u128, i: u128)
    ensures
        v6_tail(a, i).len() >= 2 * i + 1,
    decreases i,
{
    lemma_digits_shape(v6_group(a, i), 16);
    if i > 0 {
        lemma_v6_tail_len(a, (i - 1) as u128);
    }
}

/// Different IPv6 addresses have different texts.
pub proof fn lemma_ipv6_text_injective(a: u128, b: u128)
    requires
        ipv6_text(a) == ipv6_text(b),
    ensures
        a == b,
{
    lemma_ipv6_text_is_tail(a);
    lemma_ipv6_text_is_tail(b);
    lemma_v6_tail_len(a, 7);
    lemma_v6_tail_len(b, 7);
    if a != 0 && b != 0 {
        lemma_ipv6_full_text_injective(a, b);
    }
}

proof fn lemma_ipv6_full_text_injective(a: u128, b: u128)
    requires
        ipv6_full_text(a) == ipv6_full_text(b),
    ensures
        a == b,
{
    lemma_ipv6_text_is_tail(a);
    lemma_ipv6_text_is_tail(b);
    lemma_v6_tail_injective(a, b, 7);
    assert(v6_group(a, 0) == v6_group(b, 0));
    assert(v6_group(a, 1) == v6_group(b, 1));
    assert(v6_group(a, 2) == v6_group(b, 2));
    assert(v6_group(a, 3) == v6_group(b, 3));
    assert(v6_group(a, 4) == v6_group(b, 4));
    assert(v6_group(a, 5) == v6_group(b, 5));
    assert(v6_group(a, 6) == v6_group(b, 6));
    assert(v6_group(a, 7) == v6_group(b, 7));
    assert(a == b) by (bit_vector)
        requires
            (a >> 0u128) & 0xffffu128 == (b >> 0u128) & 0xffffu128,
            (a >> 16u128) & 0xffffu128 == (b >> 16u128) & 0xffffu128,
            (a >> 32u128) & 0xffffu128 == (b >> 32u128) & 0xffffu128,
            (a >> 48u128) & 0xffffu128 == (b >> 48u128) & 0xffffu128,
            (a >> 64u128) & 0xffffu128 == (b >> 64u128) & 0xffffu128,
            (a >> 80u128) & 0xffffu128 == (b >> 80u128) & 0xffffu128,
            (a >> 96u128) & 0xffffu128 == (b >> 96u128) & 0xffffu128,
            (a >> 112u128) & 0xffffu128 == (b >> 112u128) & 0xffffu128,
    ;
}

/// Two IPv6 block texts are equal only for equal addresses and prefix lengths.
pub proof fn lemma_v6_cidr_text_injective(a: u128, m1: nat, b: u128, m2: nat)
    requires
        v6_cidr_text(a, m1) == v6_cidr_text(b, m2),
    ensures
        a == b,
        m1 == m2,
{
    lemma_ipv6_text_is_tail(a);
    lemma_ipv6_text_is_tail(b);
    lemma_v6_tail_free_of_slash(a, 7);
    lemma_v6_tail_free_of_slash(b, 7);
    assert(free_of(seq![':', ':'], '/'));
    assert(v6_cidr_text(a, m1) == sep_join(ipv6_text(a), '/', dec(m1)));
    assert(v6_cidr_text(b, m2) == sep_join(ipv6_text(b), '/', dec(m2)));
    lemma_sep_join_injective(ipv6_text(a), dec(m1), ipv6_text(b), dec(m2), '/');
    lemma_ipv6_text_injective(a, b);
    lemma_digits_injective(m1, m2, 10);
}

/// Relies on `String::push`: the character is appended at the end.
#[verifier::external_body]
pub(crate) fn push_char(s: &mut String, c: char)
    ensures
        final(s)@ == old(s)@.push(c),
{
    s.push(c);
}

fn digit_char_exec(d: u64) -> (c: char)
    requires
        d < 16,
    ensures
        c == digit_char(d as nat),
{
    match d {
        0 => '0',
        1 => '1',
        2 => '2',
        3 => '3',
        4 => '4',
        5 => '5',
        6 => '6',
        7 => '7',
        8 => '8',
        9 => '9',
        10 => 'a',
        11 => 'b',
        12 => 'c',
        13 => 'd',
        14 => 'e',
        _ => 'f',
    }
}

/// Appends the digits of `n` in base `b`.
pub fn push_digits(s: &mut String, n: u64, b: u64)
    requires
        2 <= b <= 16,
    ensures
        final(s)@ == old(s)@ + digits(n as nat, b as nat),
    decreases n,
{
    let ghost start = s@;
    if n >= b {
        proof {
            lemma_quotient_smaller(n as nat, b as nat);
        }
        push_digits(s, n / b, b);
    }
    let c = digit_char_exec(n % b);
    push_char(s, c);
    if n >= b {
        assert(s@ =~= start + digits(n as nat, b as nat));
    } else {
        proof {
            vstd::arithmetic::div_mod::lemma_small_mod(n as nat, b as nat);
        }
        assert(s@ =~= start + digits(n as nat, b as nat));
    }
}

/// Appends the dotted-decimal text of an IPv4 address.
pub fn push_ipv4(s: &mut String, a: u32)
    ensures
        final(s)@ == old(s)@ + ipv4_text(a),
{
    let ghost start = s@;
    push_digits(s, ((a >> 24u32) & 0xffu32) as u64, 10);
    push_char(s, '.');
    push_digits(s, ((a >> 16u32) & 0xffu32) as u64, 10);
    push_char(s, '.');
    push_digits(s, ((a >> 8u32) & 0xffu32) as u64, 10);
    push_char(s, '.');
    push_digits(s, (a & 0xffu32) as u64, 10);
    assert(s@ =~= start + ipv4_text(a));
}

/// Appends the colon-separated hexadecimal text of an IPv6 address.
pub fn push_ipv6(s: &mut String, a: u128)
    ensures
        final(s)@ == old(s)@ + ipv6_text(a),
{
    let ghost start = s@;
    if a == 0 {
        push_char(s, ':');
        push_char(s, ':');
        assert(s@ =~= start + ipv6_text(a));
        return;
    }
    let mut i: u128 = 8;
    while i > 0
        invariant
            i <= 8,
            s@ == start + v6_head(a, i),
        decreases i,
    {
        i = i - 1;
        let g = (a >> (16 * i)) & 0xffff;
        assert(g <= 0xffff) by (bit_vector)
            requires
                g == (a >> (16 * i)) & 0xffff,
        ;
        if i < 7 {
            push_char(s, ':');
        }
        push_digits(s, g as u64, 16);
        assert(s@ =~= start + v6_head(a, i));
    }
    proof {
        lemma_ipv6_text_is_head(a);
    }
}

/// The decimal text of a number.
pub fn decimal_string(n: u64) -> (r: String)
    ensures
        r@ == dec(n as nat),
{
    let mut s = String::new();
    push_digits(&mut s, n, 10);
    assert(s@ =~= dec(n as nat));
    s
}

/// The dotted-decimal text of an IPv4 address.
pub fn ipv4_string(a: u32) -> (r: String)
    ensures
        r@ == ipv4_text(a),
{
    let mut s = String::new();
    push_ipv4(&mut s, a);
    assert(s@ =~= ipv4_text(a));
    s
}

/// The colon-separated hexadecimal text of an IPv6 address.
pub fn ipv6_string(a: u128) -> (r: String)
    ensures
        r@ == ipv6_text(a),
{
    let mut s = String::new();
    push_ipv6(&mut s, a);
    assert(s@ =~= ipv6_text(a));
    s
}

/// The text of the IPv4 block at address `a` with prefix length `m`.
pub fn v4_cidr_string(a: u32, m: u8) -> (r: String)
    ensures
        r@ == v4_cidr_text(a, m as nat),
{
    let mut s = String::new();
    push_ipv4(&mut s, a);
    push_char(&mut s, '/');
    push_digits(&mut s, m as u64, 10);
    assert(s@ =~= v4_cidr_text(a, m as nat));
    s
}

/// The text of the IPv6 block at address `a` with prefix length `m`.
pub fn v6_cidr_string(a: u128, m: u8) -> (r: String)
    ensures
        r@ == v6_cidr_text(a, m as nat),
{
    let mut s = String::new();
    push_ipv6(&mut s, a);
    push_char(&mut s, '/');
    push_digits(&mut s, m as u64, 10);
    assert(s@ =~= v6_cidr_text(a, m as nat));
    s
}

/// Two lower-case hexadecimal digits of a byte value.
pub open spec fn hex2(b: nat) -> Seq<char> {
    seq![digit_char(b / 16), digit_char(b % 16)]
}

/// The `i`-th byte of a word, counted from the least significant.
pub open spec fn byte_of(w: u64, i: u64) -> nat {
    ((w >> (8 * i)) & 0xffu64) as nat
}

/// Text of a MAC address held in the low 48 bits of `w`: six pairs of
/// lower-case hexadecimal digits, least significant byte first.
pub open spec fn mac_text(w: u64) -> Seq<char> {
    hex2(byte_of(w, 0)) + seq![':'] + hex2(byte_of(w, 1)) + seq![':'] + hex2(byte_of(w, 2)) + seq![
        ':',
    ] + hex2(byte_of(w, 3)) + seq![':'] + hex2(byte_of(w, 4)) + seq![':'] + hex2(byte_of(w, 5))
}

/// Appends the two hexadecimal digits of a byte value.
fn push_hex2(s: &mut String, b: u64)
    requires
        b < 256,
    ensures
        final(s)@ == old(s)@ + hex2(b as nat),
{
    let ghost start = s@;
    push_char(s, digit_char_exec(b / 16));
    push_char(s, digit_char_exec(b % 16));
    assert(s@ =~= start + hex2(b as nat));
}

/// The MAC-address text of the low 48 bits of `w`.
pub fn mac_string(w: u64) -> (r: String)
    ensures
        r@ == mac_text(w),
{
    let mut s = String::new();
    let mut i: u64 = 0;
    while i < 6
        invariant
            i <= 6,
            s@ == mac_prefix(w, i),
        decreases 6 - i,
    {
        if i > 0 {
            push_char(&mut s, ':');
        }
        let b = (w >> (8 * i)) & 0xff;
        assert(b < 256) by (bit_vector)
            requires
                b == (w >> (8 * i)) & 0xff,
        ;
        push_hex2(&mut s, b);
        assert(s@ =~= mac_prefix(w, (i + 1) as u64));
        i = i + 1;
    }
    proof {
        reveal_with_fuel(mac_prefix, 7);
        assert(s@ =~= mac_text(w));
    }
    s
}

/// The first `i` byte pairs of a MAC-address text.
pub open spec fn mac_prefix(w: u64, i: u64) -> Seq<char>
    decreases i,
{
    if i == 0 {
        Seq::empty()
    } else if i == 1 {
        hex2(byte_of(w, 0))
    } else {
        mac_prefix(w, (i - 1) as u64) + seq![':'] + hex2(byte_of(w, (i - 1) as u64))
    }
}

/// Relies on `String::pop`: the last character is removed and returned.
#[verifier::external_body]
pub(crate) fn pop_char(s: &mut String) -> (r: Option<char>)
    ensures
        old(s)@.len() == 0 ==> r is None && final(s)@ == old(s)@,
        old(s)@.len() > 0 ==> r == Some(old(s)@.last()) && final(s)@ == old(s)@.drop_last(),
{
    s.pop()
}

/// Five decimal digits of `n`, padded with leading zeros.
pub open spec fn dec5(n: nat) -> Seq<char> {
    seq![
        digit_char((n / 10000) % 10),
        digit_char((n / 1000) % 10),
        digit_char((n / 100) % 10),
        digit_char((n / 10) % 10),
        digit_char(n % 10),
    ]
}

/// The five-digit zero-padded decimal text of `n`.
pub fn zero_padded5(n: u32) -> (r: String)
    ensures
        r@ == dec5(n as nat),
{
    let mut s = String::new();
    push_char(&mut s, digit_char_exec(((n / 10000) % 10) as u64));
    push_char(&mut s, digit_char_exec(((n / 1000) % 10) as u64));
    push_char(&mut s, digit_char_exec(((n / 100) % 10) as u64));
    push_char(&mut s, digit_char_exec(((n / 10) % 10) as u64));
    push_char(&mut s, digit_char_exec((n % 10) as u64));
    assert(s@ =~= dec5(n as nat));
    s
}

} // verus!
