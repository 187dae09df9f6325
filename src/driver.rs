//! The randomness source that every generator draws from, bounded draws
//! over it, and two sources: a replay of recorded words and a seeded
//! pseudo-random stream.

use vstd::prelude::*;

verus! {

/// A source of raw entropy. A generator asks it for 64-bit words and gives
/// up, returning `None`, as soon as it answers `None`.
pub trait Driver {
    /// The words the source has handed out so far, in order.
    spec fn drawn(&self) -> Seq<u64>;

    /// How many requests the source has answered with `None` so far.
    spec fn refused(&self) -> nat;

    /// The source never runs dry: every request is answered.
    spec fn inexhaustible(&self) -> bool;

    /// The next word of entropy, or `None` once the source is spent.
    fn next_u64(&mut self) -> (r: Option<u64>)
        ensures
            r matches Some(w) ==> final(self).drawn() == old(self).drawn().push(w)
                && final(self).refused() == old(self).refused(),
            r is None ==> final(self).drawn() == old(self).drawn() && final(self).refused()
                == old(self).refused() + 1,
            old(self).inexhaustible() ==> r is Some && final(self).inexhaustible(),
    ;
}

/// `after` starts with `before`.
pub open spec fn extends(after: Seq<u64>, before: Seq<u64>) -> bool {
    &&& before.len() <= after.len()
    &&& forall|i: int| 0 <= i < before.len() ==> after[i] == before[i]
}

/// The words drawn between two states of a source.
pub open spec fn drew<D: Driver>(before: D, after: D) -> Seq<u64> {
    after.drawn().subrange(before.drawn().len() as int, after.drawn().len() as int)
}

/// The `i`-th word drawn between two states of a source, as a number.
pub open spec fn word<D: Driver>(before: D, after: D, i: int) -> nat {
    drew(before, after)[i] as nat
}

/// The words `i` and `i + 1` drawn between two states of a source, read as
/// one 128-bit number, the first word high.
pub open spec fn word_pair<D: Driver>(before: D, after: D, i: int) -> nat {
    word(before, after, i) * 0x1_0000_0000_0000_0000 + word(before, after, i + 1)
}

/// How a call that draws from a source ended: it only added words to the
/// record; it returned a value exactly when the source refused nothing; and
/// on an inexhaustible source it returned a value and left the source
/// inexhaustible.
pub open spec fn answered<D: Driver, T>(before: D, after: D, r: Option<T>) -> bool {
    &&& extends(after.drawn(), before.drawn())
    &&& before.refused() <= after.refused()
    &&& (r is Some <==> after.refused() == before.refused())
    &&& (before.inexhaustible() ==> r is Some && after.inexhaustible())
}

/// A call drew exactly `n` words where it returned a value; where it did
/// not, its one request was refused and it drew nothing.
pub open spec fn drew_words<D: Driver, T>(before: D, after: D, r: Option<T>, n: nat) -> bool {
    &&& r is Some ==> drew(before, after).len() == n
    &&& r is None ==> drew(before, after).len() == 0 && after.refused() == before.refused() + 1
}

/// The value in `lo..=hi` that a raw word selects.
pub open spec fn fit(raw: nat, lo: nat, hi: nat) -> nat {
    lo + raw % ((hi - lo + 1) as nat)
}

/// Maps a raw word onto `lo..=hi`.
pub fn fit_u64(raw: u64, lo: u64, hi: u64) -> (r: u64)
    requires
        lo <= hi,
    ensures
        r == fit(raw as nat, lo as nat, hi as nat),
        lo <= r <= hi,
{
    let span = hi - lo;
    if span == u64::MAX {
        proof {
            vstd::arithmetic::div_mod::lemma_small_mod(raw as nat, (span + 1) as nat);
        }
        raw
    } else {
        proof {
            vstd::arithmetic::div_mod::lemma_mod_bound(raw as int, (span + 1) as int);
        }
        lo + raw % (span + 1)
    }
}

/// Maps a raw 128-bit value onto `lo..=hi`.
pub fn fit_u128(raw: u128, lo: u128, hi: u128) -> (r: u128)
    requires
        lo <= hi,
    ensures
        r == fit(raw as nat, lo as nat, hi as nat),
        lo <= r <= hi,
{
    let span = hi - lo;
    if span == u128::MAX {
        proof {
            vstd::arithmetic::div_mod::lemma_small_mod(raw as nat, (span + 1) as nat);
        }
        raw
    } else {
        proof {
            vstd::arithmetic::div_mod::lemma_mod_bound(raw as int, (span + 1) as int);
        }
        lo + raw % (span + 1)
    }
}

/// A word in `lo..=hi`.
pub fn gen_u64<D: Driver>(d: &mut D, lo: u64, hi: u64) -> (r: Option<u64>)
    requires
        lo <= hi,
    ensures
        answered(*old(d), *final(d), r),
        drew_words(*old(d), *final(d), r, 1),
        r matches Some(v) ==> v == fit(word(*old(d), *final(d), 0), lo as nat, hi as nat),
        r matches Some(v) ==> lo <= v <= hi,
{
    match d.next_u64() {
        Some(raw) => Some(fit_u64(raw, lo, hi)),
        None => None,
    }
}

/// A 128-bit value in `lo..=hi`, made of two words.
pub fn gen_u128<D: Driver>(d: &mut D, lo: u128, hi: u128) -> (r: Option<u128>)
    requires
        lo <= hi,
    ensures
        answered(*old(d), *final(d), r),
        r is Some ==> drew(*old(d), *final(d)).len() == 2,
        r matches Some(v) ==> v == fit(word_pair(*old(d), *final(d), 0), lo as nat, hi as nat),
        r matches Some(v) ==> lo <= v <= hi,
{
    let high = match d.next_u64() {
        Some(w) => w,
        None => return None,
    };
    let low = match d.next_u64() {
        Some(w) => w,
        None => return None,
    };
    let raw = (high as u128) * 0x1_0000_0000_0000_0000u128 + (low as u128);
    Some(fit_u128(raw, lo, hi))
}

/// A `u32` in `lo..=hi`.
pub fn gen_u32<D: Driver>(d: &mut D, lo: u32, hi: u32) -> (r: Option<u32>)
    requires
        lo <= hi,
    ensures
        answered(*old(d), *final(d), r),
        drew_words(*old(d), *final(d), r, 1),
        r matches Some(v) ==> v == fit(word(*old(d), *final(d), 0), lo as nat, hi as nat),
        r matches Some(v) ==> lo <= v <= hi,
{
    match gen_u64(d, lo as u64, hi as u64) {
        Some(v) => Some(v as u32),
        None => None,
    }
}

/// A `u16` in `lo..=hi`.
pub fn gen_u16<D: Driver>(d: &mut D, lo: u16, hi: u16) -> (r: Option<u16>)
    requires
        lo <= hi,
    ensures
        answered(*old(d), *final(d), r),
        drew_words(*old(d), *final(d), r, 1),
        r matches Some(v) ==> v == fit(word(*old(d), *final(d), 0), lo as nat, hi as nat),
        r matches Some(v) ==> lo <= v <= hi,
{
    match gen_u64(d, lo as u64, hi as u64) {
        Some(v) => Some(v as u16),
        None => None,
    }
}

/// A `u8` in `lo..=hi`.
pub fn gen_u8<D: Driver>(d: &mut D, lo: u8, hi: u8) -> (r: Option<u8>)
    requires
        lo <= hi,
    ensures
        answered(*old(d), *final(d), r),
        drew_words(*old(d), *final(d), r, 1),
        r matches Some(v) ==> v == fit(word(*old(d), *final(d), 0), lo as nat, hi as nat),
        r matches Some(v) ==> lo <= v <= hi,
{
    match gen_u64(d, lo as u64, hi as u64) {
        Some(v) => Some(v as u8),
        None => None,
    }
}

/// A `usize` in `lo..=hi`.
pub fn gen_usize<D: Driver>(d: &mut D, lo: usize, hi: usize) -> (r: Option<usize>)
    requires
        lo <= hi,
    ensures
        answered(*old(d), *final(d), r),
        drew_words(*old(d), *final(d), r, 1),
        r matches Some(v) ==> v == fit(word(*old(d), *final(d), 0), lo as nat, hi as nat),
        r matches Some(v) ==> lo <= v <= hi,
{
    match gen_u64(d, lo as u64, hi as u64) {
        Some(v) => Some(v as usize),
        None => None,
    }
}

/// An `i64` in `lo..=hi`.
pub fn gen_i64<D: Driver>(d: &mut D, lo: i64, hi: i64) -> (r: Option<i64>)
    requires
        lo <= hi,
    ensures
        answered(*old(d), *final(d), r),
        drew_words(*old(d), *final(d), r, 1),
        r matches Some(v) ==> v == lo + fit(word(*old(d), *final(d), 0), 0, (hi - lo) as nat),
        r matches Some(v) ==> lo <= v <= hi,
{
    let span = (hi as i128 - lo as i128) as u64;
    match gen_u64(d, 0, span) {
        Some(v) => Some((lo as i128 + v as i128) as i64),
        None => None,
    }
}

/// Any `u32`.
pub fn gen_any_u32<D: Driver>(d: &mut D) -> (r: Option<u32>)
    ensures
        answered(*old(d), *final(d), r),
        drew_words(*old(d), *final(d), r, 1),
        r matches Some(v) ==> v == word(*old(d), *final(d), 0) % 0x1_0000_0000,
{
    gen_u32(d, 0, u32::MAX)
}

/// A coin flip.
pub fn gen_bool<D: Driver>(d: &mut D) -> (r: Option<bool>)
    ensures
        answered(*old(d), *final(d), r),
        drew_words(*old(d), *final(d), r, 1),
        r matches Some(v) ==> v == (word(*old(d), *final(d), 0) % 2 == 1),
{
    match d.next_u64() {
        Some(raw) => Some(raw % 2 == 1),
        None => None,
    }
}

/// Replays a recorded sequence of words, then is spent.
pub struct ReplayDriver {
    words: Vec<u64>,
    pos: usize,
    refusals: Ghost<nat>,
}

impl ReplayDriver {
    /// The words not yet handed out.
    pub closed spec fn remaining(&self) -> Seq<u64> {
        self.words@.subrange(self.pos as int, self.words@.len() as int)
    }

    pub closed spec fn wf(&self) -> bool {
        self.pos <= self.words@.len()
    }

    /// A driver that hands out `words` in order.
    pub fn new(words: Vec<u64>) -> (r: ReplayDriver)
        ensures
            r.wf(),
            r.remaining() == words@,
            r.drawn() == Seq::<u64>::empty(),
            r.refused() == 0,
    {
        let r = ReplayDriver { words, pos: 0, refusals: Ghost(0) };
        assert(r.remaining() =~= r.words@);
        assert(r.drawn() =~= Seq::<u64>::empty());
        r
    }
}

impl Driver for ReplayDriver {
    closed spec fn drawn(&self) -> Seq<u64> {
        self.words@.subrange(0, self.pos as int)
    }

    closed spec fn refused(&self) -> nat {
        self.refusals@
    }

    /// A replay runs dry once its words are spent.
    open spec fn inexhaustible(&self) -> bool {
        false
    }

    fn next_u64(&mut self) -> (r: Option<u64>)
        ensures
            old(self).wf() ==> final(self).wf(),
            old(self).wf() && old(self).remaining().len() == 0 ==> r is None
                && final(self).remaining() == old(self).remaining(),
            old(self).wf() && old(self).remaining().len() > 0 ==> r == Some(
                old(self).remaining()[0],
            ) && final(self).remaining() == old(self).remaining().drop_first(),
    {
        if self.pos < self.words.len() {
            let w = self.words[self.pos];
            self.pos = self.pos + 1;
            assert(self.remaining() =~= old(self).remaining().drop_first());
            assert(self.drawn() =~= old(self).drawn().push(w));
            Some(w)
        } else {
            self.refusals = Ghost(self.refusals@ + 1);
            None
        }
    }
}

/// The state step of the SplitMix64 generator.
pub const SPLITMIX_GAMMA: u64 = 0x9e37_79b9_7f4a_7c15;

/// The output mix of the SplitMix64 generator.
pub open spec fn splitmix_mix(z: u64) -> u64 {
    let z1 = ((z ^ (z >> 30u64)) as int * 0xbf58_476d_1ce4_e5b9int) % 0x1_0000_0000_0000_0000int;
    let z2 = (((z1 as u64) ^ ((z1 as u64) >> 27u64)) as int * 0x94d0_49bb_1331_11ebint)
        % 0x1_0000_0000_0000_0000int;
    (z2 as u64) ^ ((z2 as u64) >> 31u64)
}

/// A seeded pseudo-random stream (SplitMix64) that is never spent.
pub struct SplitMix64 {
    state: u64,
    history: Ghost<Seq<u64>>,
}

impl SplitMix64 {
    /// The seed-derived state from which the next word is made.
    pub closed spec fn state(&self) -> u64 {
        self.state
    }

    /// A stream started from `seed`.
    pub fn new(seed: u64) -> (r: SplitMix64)
        ensures
            r.state() == seed,
            r.drawn() == Seq::<u64>::empty(),
            r.refused() == 0,
    {
        SplitMix64 { state: seed, history: Ghost(Seq::empty()) }
    }
}

impl Driver for SplitMix64 {
    closed spec fn drawn(&self) -> Seq<u64> {
        self.history@
    }

    /// The stream never refuses.
    open spec fn refused(&self) -> nat {
        0
    }

    open spec fn inexhaustible(&self) -> bool {
        true
    }

    fn next_u64(&mut self) -> (r: Option<u64>)
        ensures
            final(self).state() == (old(self).state() as int + SPLITMIX_GAMMA as int)
                % 0x1_0000_0000_0000_0000int,
            r == Some(splitmix_mix(final(self).state())),
    {
        self.state = self.state.wrapping_add(SPLITMIX_GAMMA);
        let z = self.state;
        let z1 = (z ^ (z >> 30)).wrapping_mul(0xbf58_476d_1ce4_e5b9);
        let z2 = (z1 ^ (z1 >> 27)).wrapping_mul(0x94d0_49bb_1331_11eb);
        let w = z2 ^ (z2 >> 31);
        self.history = Ghost(self.history@.push(w));
        Some(w)
    }
}

} // verus!
