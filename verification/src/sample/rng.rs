//! `splitmix64`, the generator that the draw uses.
use vstd::arithmetic::div_mod::lemma_mul_mod_noop_left;
use vstd::prelude::*;

verus! {

/// How far the state moves with each draw.
pub const GAMMA: u64 = 0x9E37_79B9_7F4A_7C15;

/// The first multiplier of the mix.
pub const MIX_1: u64 = 0xBF58_476D_1CE4_E5B9;

/// The second multiplier of the mix.
pub const MIX_2: u64 = 0x94D0_49BB_1331_11EB;

/// The state behind `s`.
pub open spec fn advanced(s: u64) -> u64 {
    s.wrapping_add(GAMMA)
}

/// The number that a state gives.
pub open spec fn mixed(s: u64) -> u64 {
    let a = (s ^ (s >> 30)).wrapping_mul(MIX_1);
    let b = (a ^ (a >> 27)).wrapping_mul(MIX_2);
    b ^ (b >> 31)
}

/// The state after `n` draws.
pub open spec fn state_after(seed: u64, n: nat) -> u64
    decreases n,
{
    if n == 0 {
        seed
    } else {
        advanced(state_after(seed, (n - 1) as nat))
    }
}

/// `splitmix64`, the generator the walk draws from.
///
/// Chosen for being reproducible in a dozen lines: the whole state is one `u64`, so the
/// same seed gives the same stream on every machine and every build. A thread-local
/// RNG would be faster and would make every bug report unreproducible.
#[derive(Clone, Debug)]
pub struct SplitMix64 {
    state: u64,
}

impl View for SplitMix64 {
    type V = u64;

    closed spec fn view(&self) -> u64 {
        self.state
    }
}

impl SplitMix64 {
    pub fn new(seed: u64) -> (r: Self)
        ensures
            r@ == seed,
    {
        SplitMix64 { state: seed }
    }

    /// The whole state.
    pub fn state(&self) -> (r: u64)
        ensures
            r == self@,
    {
        self.state
    }

    pub fn next_u64(&mut self) -> (r: u64)
        ensures
            final(self)@ == advanced(old(self)@),
            r == mixed(advanced(old(self)@)),
    {
        self.state = self.state.wrapping_add(GAMMA);
        let s: u64 = self.state;
        let a: u64 = (s ^ (s >> 30)).wrapping_mul(MIX_1);
        let b: u64 = (a ^ (a >> 27)).wrapping_mul(MIX_2);
        b ^ (b >> 31)
    }

    /// The numerator of a uniform in `[0, 1)` over `2^53`.
    ///
    /// `>> 11` keeps the high bits, which are the well-mixed ones, and scaling by
    /// `2^-53` is exact, so the quotient cannot round up to `1.0`. A 24-bit version would
    /// make a token with probability below `6e-8` literally unreachable, which is the tail
    /// that sampling exists to explore.
    pub fn next_u53(&mut self) -> (r: u64)
        ensures
            final(self)@ == advanced(old(self)@),
            r == mixed(advanced(old(self)@)) >> 11,
            r < 0x20_0000_0000_0000,
    {
        let z: u64 = self.next_u64();
        assert(z >> 11 < 0x20_0000_0000_0000) by (bit_vector);
        z >> 11
    }
}

// ---------------------------------------------------------------------------
// the stream
// ---------------------------------------------------------------------------
/// The state after `n` draws is the seed plus `n` steps, modulo 2^64.
pub proof fn state_is_seed_plus_steps(seed: u64, n: nat)
    ensures
        state_after(seed, n) == (seed + n * GAMMA) % 0x1_0000_0000_0000_0000,
    decreases n,
{
    if n > 0 {
        let m = (n - 1) as nat;
        state_is_seed_plus_steps(seed, m);
        let before = seed + m * GAMMA;
        assert(n * GAMMA == m * GAMMA + GAMMA) by (nonlinear_arith)
            requires
                n == m + 1,
        ;
        vstd::arithmetic::div_mod::lemma_add_mod_noop(
            before,
            GAMMA as int,
            0x1_0000_0000_0000_0000,
        );
        vstd::arithmetic::div_mod::lemma_small_mod(GAMMA as nat, 0x1_0000_0000_0000_0000);
        let s = state_after(seed, m);
        assert(advanced(s) == (s + GAMMA) % 0x1_0000_0000_0000_0000);
    } else {
        vstd::arithmetic::div_mod::lemma_small_mod(seed as nat, 0x1_0000_0000_0000_0000);
    }
}

/// A product modulo 2^64 gives the factor back when it is multiplied by an inverse of the
/// other factor.
proof fn lemma_product_undone(x: u64, c: u64, inverse: u64)
    requires
        (c * inverse) % 0x1_0000_0000_0000_0000 == 1,
    ensures
        (x.wrapping_mul(c) * inverse) % 0x1_0000_0000_0000_0000 == x,
{
    let m: int = 0x1_0000_0000_0000_0000;
    let p = x * c;
    assert(x.wrapping_mul(c) == p % m);
    lemma_mul_mod_noop_left(p, inverse as int, m);
    assert(p * inverse == x * (c * inverse)) by (nonlinear_arith)
        requires
            p == x * c,
    ;
    vstd::arithmetic::div_mod::lemma_mul_mod_noop_right(x as int, c * inverse, m);
    vstd::arithmetic::div_mod::lemma_small_mod(x as nat, m as nat);
}

/// Different states give different numbers, so each number comes once in a period.
pub proof fn states_give_different_numbers(s: u64, t: u64)
    requires
        mixed(s) == mixed(t),
    ensures
        s == t,
{
    let sx = s ^ (s >> 30);
    let tx = t ^ (t >> 30);
    let sa = sx.wrapping_mul(MIX_1);
    let ta = tx.wrapping_mul(MIX_1);
    let say = sa ^ (sa >> 27);
    let tay = ta ^ (ta >> 27);
    let sb = say.wrapping_mul(MIX_2);
    let tb = tay.wrapping_mul(MIX_2);
    assert(sb ^ (sb >> 31) == tb ^ (tb >> 31) ==> sb == tb) by (bit_vector);
    assert((MIX_2 * 0x3196_42b2_d24d_8ec3u64) % 0x1_0000_0000_0000_0000 == 1);
    lemma_product_undone(say, MIX_2, 0x3196_42b2_d24d_8ec3);
    lemma_product_undone(tay, MIX_2, 0x3196_42b2_d24d_8ec3);
    assert(sa ^ (sa >> 27) == ta ^ (ta >> 27) ==> sa == ta) by (bit_vector);
    assert((MIX_1 * 0x96de_1b17_3f11_9089u64) % 0x1_0000_0000_0000_0000 == 1);
    lemma_product_undone(sx, MIX_1, 0x96de_1b17_3f11_9089);
    lemma_product_undone(tx, MIX_1, 0x96de_1b17_3f11_9089);
    assert(s ^ (s >> 30) == t ^ (t >> 30) ==> s == t) by (bit_vector);
}

/// Two seeds that differ give streams that differ at every draw.
pub proof fn seeds_give_different_streams(a: u64, b: u64, n: nat)
    requires
        a != b,
    ensures
        state_after(a, n) != state_after(b, n),
        mixed(state_after(a, n)) != mixed(state_after(b, n)),
    decreases n,
{
    if n > 0 {
        seeds_give_different_streams(a, b, (n - 1) as nat);
    }
    if mixed(state_after(a, n)) == mixed(state_after(b, n)) {
        states_give_different_numbers(state_after(a, n), state_after(b, n));
    }
}

} // verus!
