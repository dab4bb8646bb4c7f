//! Seeded permuted-congruential generator used for all gameplay randomness.

use vstd::prelude::*;
use vstd::arithmetic::div_mod::{
    lemma_add_mod_noop, lemma_fundamental_div_mod, lemma_fundamental_div_mod_converse,
    lemma_mod_bound, lemma_mod_sub_multiples_vanish, lemma_small_mod,
};
use vstd::set_lib::{lemma_int_range, set_int_range};

verus! {

/// Multiplier of the 64-bit linear congruential step.
pub const PCG_MULTIPLIER: u64 = 6364136223846793005;

/// Number of rejected candidates after which a bounded draw settles.
///
/// A generator has at most 2^64 states, so a draw that rejects this many
/// candidates in a row has walked a whole cycle and would reject forever.
pub const REDRAW_LIMIT: u64 = 0xffff_ffff_ffff_ffff;

/// The two words of a generator, as contracts see them.
pub ghost struct PcgState {
    pub state: u64,
    pub inc: u64,
}

/// State after one congruential step: `state * PCG_MULTIPLIER + inc` modulo 2^64.
pub open spec fn advance(state: u64, inc: u64) -> u64 {
    ((state as int * PCG_MULTIPLIER as int + inc as int) % 0x1_0000_0000_0000_0000) as u64
}

/// Output word of a state: the state xored with itself shifted right by 18,
/// shifted right by 27 and cut to its low 32 bits, then rotated right by the
/// state's top five bits.
pub open spec fn permute(state: u64) -> u32 {
    let xorshifted = (((state >> 18) ^ state) >> 27) as u32;
    let rot = (state >> 59) as u32;
    (xorshifted >> rot) | (xorshifted << (((32 - rot) as u32) & 31))
}

/// The 64-bit product of a drawn word and the bound.
pub open spec fn candidate(x: u32, range: u32) -> u64 {
    (x as int * range as int) as u64
}

/// Low 32 bits of a candidate.
pub open spec fn low_half(m: u64) -> u32 {
    (m % 0x1_0000_0000) as u32
}

/// High 32 bits of a candidate.
pub open spec fn high_half(m: u64) -> u32 {
    (m / 0x1_0000_0000) as u32
}

/// Rejection threshold of a bound: `(2^32 - range) mod range`.
pub open spec fn threshold(range: u32) -> u32
    recommends
        range > 0,
{
    ((0x1_0000_0000 - range) % (range as int)) as u32
}

/// Outcome of a bounded draw that holds candidate `m` while the generator is
/// at `state`: the value returned and the state left behind. A candidate is
/// kept when its low half reaches the threshold, or when `fuel` has run out.
pub open spec fn settle(state: u64, inc: u64, range: u32, m: u64, fuel: nat) -> (u32, u64)
    decreases fuel,
{
    if low_half(m) >= threshold(range) || fuel == 0 {
        (high_half(m), state)
    } else {
        settle(
            advance(state, inc),
            inc,
            range,
            candidate(permute(state), range),
            (fuel - 1) as nat,
        )
    }
}

/// Value and next state of a bounded draw from `state`.
pub open spec fn bounded(state: u64, inc: u64, range: u32) -> (u32, u64) {
    settle(advance(state, inc), inc, range, candidate(permute(state), range), REDRAW_LIMIT as nat)
}

/// A PCG32 generator: a 64-bit state and the odd increment of its sequence.
#[derive(Clone, Copy, Debug, Hash)]
pub struct Pcg32RandomT {
    state: u64,
    inc: u64,
}

impl View for Pcg32RandomT {
    type V = PcgState;

    closed spec fn view(&self) -> PcgState {
        PcgState { state: self.state, inc: self.inc }
    }
}

proof fn lemma_wrapping_step(state: u64, inc: u64)
    ensures
        vstd::wrapping::u64_specs::wrapping_add(
            vstd::wrapping::u64_specs::wrapping_mul(state, PCG_MULTIPLIER),
            inc,
        ) == advance(state, inc),
{
    let r: int = 0x1_0000_0000_0000_0000;
    let p: int = state as int * PCG_MULTIPLIER as int;
    assert(p >= 0) by (nonlinear_arith)
        requires
            p == state as int * PCG_MULTIPLIER as int,
            state >= 0,
            PCG_MULTIPLIER >= 0,
    ;
    lemma_add_mod_noop(p, inc as int, r);
    lemma_small_mod(inc as nat, r as nat);
    let a: int = p % r;
    assert((a + inc) % r == if a + inc >= r { a + inc - r } else { a + inc });
}

proof fn lemma_threshold(range: u32, t0: u32)
    requires
        range > 0,
        t0 == 0x1_0000_0000 - range,
    ensures
        t0 < range ==> threshold(range) == t0,
        t0 >= range ==> threshold(range) == ((t0 - range) % (range as int)) as u32,
        t0 >= range && t0 - range < range ==> threshold(range) == t0 - range,
        threshold(range) < range,
{
    let m: int = range as int;
    if t0 < range {
        lemma_small_mod(t0 as nat, m as nat);
    } else {
        lemma_mod_sub_multiples_vanish(t0 as int, m);
        assert((t0 - range) % m == t0 as int % m);
        if t0 - range < range {
            lemma_small_mod((t0 - range) as nat, m as nat);
        }
    }
    assert(0 <= (0x1_0000_0000 - range) % m < m);
}

proof fn lemma_candidate(x: u32, range: u32)
    ensures
        x as int * range as int <= 0xffff_ffff_ffff_ffff,
        x as int * range as int >= 0,
        range > 0 ==> high_half(candidate(x, range)) < range,
{
    assert(0 <= x as int * range as int <= 0xffff_ffff * 0xffff_ffff) by (nonlinear_arith)
        requires
            0 <= x <= 0xffff_ffff,
            0 <= range <= 0xffff_ffff,
    ;
    if range > 0 {
        let m: int = x as int * range as int;
        assert(m < 0x1_0000_0000 * range) by (nonlinear_arith)
            requires
                m == x as int * range as int,
                0 <= x < 0x1_0000_0000,
                range > 0,
        ;
        assert(m / 0x1_0000_0000 < range);
    }
}

/// A bounded draw never reaches its bound, however many candidates it rejected.
pub proof fn lemma_settle_below_bound(state: u64, inc: u64, range: u32, x: u32, fuel: nat)
    requires
        range > 0,
    ensures
        settle(state, inc, range, candidate(x, range), fuel).0 < range,
    decreases fuel,
{
    lemma_candidate(x, range);
    if !(low_half(candidate(x, range)) >= threshold(range) || fuel == 0) {
        lemma_settle_below_bound(advance(state, inc), inc, range, permute(state), (fuel - 1) as nat);
    }
}

/// Whether the drawn word `x` is kept under the bound `range` and gives the
/// value `v`.
pub open spec fn gives(x: u32, range: u32, v: u32) -> bool {
    low_half(candidate(x, range)) >= threshold(range) && high_half(candidate(x, range)) == v
}

/// The 32-bit words that are kept under the bound `range` and give `v`.
pub open spec fn words_giving(range: u32, v: u32) -> Set<int> {
    Set::new(|x: int| 0 <= x < 0x1_0000_0000 && gives(x as u32, range, v))
}

proof fn lemma_gives_window(x: int, range: u32, v: u32)
    requires
        0 <= x < 0x1_0000_0000,
        range > 0,
        v < range,
    ensures
        gives(x as u32, range, v) <==> v * 0x1_0000_0000 + threshold(range) <= x * range < (v + 1)
            * 0x1_0000_0000,
{
    let big: int = 0x1_0000_0000;
    let m: int = x * range;
    lemma_candidate(x as u32, range);
    assert(candidate(x as u32, range) == m);
    lemma_fundamental_div_mod(m, big);
    lemma_mod_bound(m, big);
    lemma_threshold(range, (0x1_0000_0000 - range) as u32);
    let t = threshold(range) as int;
    assert(high_half(candidate(x as u32, range)) == m / big);
    assert(low_half(candidate(x as u32, range)) == m % big);
    if v * big + t <= m < (v + 1) * big {
        lemma_fundamental_div_mod_converse(m, big, v as int, m - v * big);
    }
    if m / big == v {
        assert(big * (m / big) == v * big) by (nonlinear_arith)
            requires
                m / big == v,
        ;
    }
}

proof fn lemma_window(x: int, n: int, v: int, k: int, t: int, d: int)
    requires
        n > 0,
        0 <= v,
        0 <= k,
        0 <= t < n,
        (d - 1) * n < (v + 1) * t <= d * n,
    ensures
        (v * (n * k + t) + t <= x * n) <==> (v * k + d <= x),
        (x * n < (v + 1) * (n * k + t)) <==> (x < (v + 1) * k + d),
{
    let c = (v + 1) * t;
    assert(v * (n * k + t) + t == (v * k) * n + c) by (nonlinear_arith)
        requires
            c == (v + 1) * t,
    ;
    assert((v + 1) * (n * k + t) == ((v + 1) * k) * n + c) by (nonlinear_arith)
        requires
            c == (v + 1) * t,
    ;
    let y = x - v * k;
    assert(x * n == y * n + (v * k) * n) by (nonlinear_arith)
        requires
            y == x - v * k,
    ;
    let z = x - (v + 1) * k;
    assert(x * n == z * n + ((v + 1) * k) * n) by (nonlinear_arith)
        requires
            z == x - (v + 1) * k,
    ;
    if y >= d {
        assert(y * n >= d * n) by (nonlinear_arith)
            requires
                y >= d,
                n > 0,
        ;
    } else {
        assert(y * n <= (d - 1) * n) by (nonlinear_arith)
            requires
                y <= d - 1,
                n > 0,
        ;
    }
    if z >= d {
        assert(z * n >= d * n) by (nonlinear_arith)
            requires
                z >= d,
                n > 0,
        ;
    } else {
        assert(z * n <= (d - 1) * n) by (nonlinear_arith)
            requires
                z <= d - 1,
                n > 0,
        ;
    }
}

/// A bounded draw has no bias: of the 2^32 words that can be drawn, every
/// value below the bound is given by the same number of kept words, the
/// whole part of 2^32 divided by the bound.
pub proof fn lemma_every_value_has_as_many_words(range: u32, v: u32)
    requires
        range > 0,
        v < range,
    ensures
        words_giving(range, v).finite(),
        words_giving(range, v).len() == 0x1_0000_0000int / (range as int),
{
    let big: int = 0x1_0000_0000;
    let n = range as int;
    let k = big / n;
    let t = big % n;
    lemma_fundamental_div_mod(big, n);
    lemma_mod_bound(big, n);
    lemma_mod_sub_multiples_vanish(big, n);
    assert(threshold(range) == t);
    assert(k >= 0) by (nonlinear_arith)
        requires
            big == n * k + t,
            t < n,
            n > 0,
            big > 0,
    ;
    let c = (v + 1) * t;
    assert(c >= 0) by (nonlinear_arith)
        requires
            c == (v + 1) * t,
            v >= 0,
            t >= 0,
    ;
    let d = (c + n - 1) / n;
    let r = (c + n - 1) % n;
    lemma_fundamental_div_mod(c + n - 1, n);
    lemma_mod_bound(c + n - 1, n);
    assert((d - 1) * n == n * d - n && d * n == n * d) by (nonlinear_arith);
    assert(d >= 0) by (nonlinear_arith)
        requires
            c + n - 1 == n * d + r,
            r < n,
            n > 0,
            c >= 0,
    ;
    let lo = v * k + d;
    assert(lo >= 0) by (nonlinear_arith)
        requires
            lo == v * k + d,
            v >= 0,
            k >= 0,
            d >= 0,
    ;
    assert((v + 1) * k + d == lo + k) by (nonlinear_arith)
        requires
            lo == v * k + d,
    ;
    assert((v + 1) * big <= n * big) by (nonlinear_arith)
        requires
            v + 1 <= n,
            big > 0,
    ;
    assert forall|x: int| words_giving(range, v).contains(x) <==> set_int_range(lo, lo + k).contains(
        x,
    ) by {
        lemma_window(x, n, v as int, k, t, d);
        if 0 <= x < big {
            lemma_gives_window(x, range, v);
        } else if lo <= x < lo + k {
            assert(x < big) by (nonlinear_arith)
                requires
                    x * n < n * big,
                    n > 0,
            ;
        }
    }
    assert(words_giving(range, v) =~= set_int_range(lo, lo + k));
    lemma_int_range(lo, lo + k);
}

impl Default for Pcg32RandomT {
    /// The generator whose two words are zero. Its increment is even, so it
    /// stays at zero and draws zero for ever: seed a generator with `new`.
    fn default() -> (g: Self)
        ensures
            g@ == (PcgState { state: 0, inc: 0 }),
    {
        Self { state: 0, inc: 0 }
    }
}

impl Pcg32RandomT {
    /// A generator at `initstate` on the sequence selected by `initseq`.
    pub fn new(initstate: u64, initseq: u64) -> (g: Self)
        ensures
            g@.state == initstate,
            g@.inc == (initseq << 1) | 1,
            g@.inc % 2 == 1,
    {
        let inc = (initseq << 1u64) | 1u64;
        assert(((initseq << 1u64) | 1u64) % 2 == 1) by (bit_vector);
        Self { state: initstate, inc }
    }

    /// The generator with exactly these two words, as a saved state holds them.
    pub fn from_parts(state: u64, inc: u64) -> (g: Self)
        ensures
            g@ == (PcgState { state, inc }),
    {
        Self { state, inc }
    }

    /// The two words of the generator: state, then increment.
    pub fn parts(&self) -> (p: (u64, u64))
        ensures
            p.0 == self@.state,
            p.1 == self@.inc,
    {
        (self.state, self.inc)
    }

    /// Draws one 32-bit word and advances the state by one step.
    pub fn pcg32_random_r(&mut self) -> (out: u32)
        ensures
            out == permute(old(self)@.state),
            final(self)@.state == advance(old(self)@.state, old(self)@.inc),
            final(self)@.inc == old(self)@.inc,
    {
        let oldstate = self.state;
        self.state = oldstate.wrapping_mul(PCG_MULTIPLIER).wrapping_add(self.inc);
        proof {
            lemma_wrapping_step(oldstate, self.inc);
        }
        let xorshifted: u32 = #[verifier::truncate]
        ((((oldstate >> 18) ^ oldstate) >> 27) as u32);
        assert((oldstate >> 59) < 32) by (bit_vector);
        let rot: u32 = (oldstate >> 59) as u32;
        let back: u32 = 32 - rot;
        assert(back & 31 < 32) by (bit_vector);
        (xorshifted >> rot) | (xorshifted << (back & 31))
    }

    /// Draws a value below `range` without bias, by multiply-and-reject.
    ///
    /// A candidate is the product of a drawn word and `range`; it is redrawn
    /// while its low half lies under `threshold(range)`, and its high half is
    /// the value. After `REDRAW_LIMIT` rejections in a row the candidate in
    /// hand is kept.
    pub fn bounded_rand(&mut self, range: u32) -> (out: u32)
        requires
            range > 0,
        ensures
            out < range,
            out == bounded(old(self)@.state, old(self)@.inc, range).0,
            final(self)@.state == bounded(old(self)@.state, old(self)@.inc, range).1,
            final(self)@.inc == old(self)@.inc,
    {
        let ghost start = self@;
        let mut x = self.pcg32_random_r();
        proof {
            lemma_candidate(x, range);
            lemma_settle_below_bound(self@.state, self@.inc, range, x, REDRAW_LIMIT as nat);
        }
        let mut m: u64 = (x as u64) * (range as u64);
        let mut l: u32 = #[verifier::truncate]
        (m as u32);
        assert(l == low_half(m)) by (bit_vector)
            requires
                l == m as u32,
        ;
        if l < range {
            let mut t: u32 = 0u32.wrapping_sub(range);
            proof {
                lemma_threshold(range, t);
            }
            if t >= range {
                t -= range;
                if t >= range {
                    t %= range;
                }
            }
            let mut tries: u64 = 0;
            while l < t && tries < REDRAW_LIMIT
                invariant
                    range > 0,
                    t == threshold(range),
                    l == low_half(m),
                    self@.inc == start.inc,
                    tries <= REDRAW_LIMIT,
                    settle(self@.state, start.inc, range, m, (REDRAW_LIMIT - tries) as nat)
                        == bounded(start.state, start.inc, range),
                decreases REDRAW_LIMIT - tries,
            {
                x = self.pcg32_random_r();
                proof {
                    lemma_candidate(x, range);
                }
                m = (x as u64) * (range as u64);
                l = #[verifier::truncate]
                (m as u32);
                assert(l == low_half(m)) by (bit_vector)
                    requires
                        l == m as u32,
                ;
                tries += 1;
            }
        } else {
            proof {
                lemma_threshold(range, (0x1_0000_0000 - range) as u32);
            }
        }
        assert((m >> 32) == m / 0x1_0000_0000) by (bit_vector);
        (m >> 32) as u32
    }
}

} // verus!
