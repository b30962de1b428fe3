//! Fixed-point scale bookkeeping: quantization and rescaling with
//! round-half-to-even rounding.

use vstd::prelude::*;
use vstd::arithmetic::power2::*;
use vstd::arithmetic::div_mod::*;

verus! {

/// The power-of-two exponent of the fixed-point representation: a value `v`
/// at scale `s` stands for the real number `v / 2^s`.
pub type Scale = i32;

/// Nearest integer to `n / d` for `d > 0`, ties rounded to the nearest even
/// integer.
pub open spec fn div_round_half_even(n: int, d: int) -> int {
    let q = n / d;
    let r = n % d;
    if 2 * r < d {
        q
    } else if 2 * r > d {
        q + 1
    } else if q % 2 == 0 {
        q
    } else {
        q + 1
    }
}

/// `round_half_to_even(num/den * 2^s)`: the fixed-point form of the rational
/// `num / den` at scale `s`.
pub open spec fn quantize_spec(num: int, den: int, s: int) -> int {
    if s >= 0 {
        div_round_half_even(num * pow2(s as nat), den)
    } else {
        div_round_half_even(num, den * pow2((-s) as nat))
    }
}

/// `round_half_to_even(x * 2^(to - from))`: moves a fixed-point value from
/// scale `from` to scale `to`.
pub open spec fn rescale_spec(x: int, from: int, to: int) -> int {
    if to >= from {
        x * pow2((to - from) as nat)
    } else {
        div_round_half_even(x, pow2((from - to) as nat) as int)
    }
}

/// Exact division leaves no rounding to do.
proof fn lemma_div_rhe_exact(a: int, d: int)
    requires
        d > 0,
    ensures
        div_round_half_even(a * d, d) == a,
{
    lemma_fundamental_div_mod_converse(a * d, d, a, 0);
}

/// `q` is even exactly when `-q` is even, and exactly when `-q - 1` is odd.
proof fn lemma_parity_negation(q: int)
    ensures
        (q % 2 == 0) <==> ((-q) % 2 == 0),
        (q % 2 == 0) <==> ((-q - 1) % 2 == 1),
{
    lemma_fundamental_div_mod(q, 2);
    let k = q / 2;
    let r = q % 2;
    assert(q == k * 2 + r) by (nonlinear_arith)
        requires q == 2 * k + r,
    ;
    if r == 0 {
        assert(-q == (-k) * 2 + 0) by (nonlinear_arith)
            requires q == k * 2,
        ;
        assert(-q - 1 == (-k - 1) * 2 + 1) by (nonlinear_arith)
            requires q == k * 2,
        ;
        lemma_fundamental_div_mod_converse(-q, 2, -k, 0);
        lemma_fundamental_div_mod_converse(-q - 1, 2, -k - 1, 1);
    } else {
        assert(-q == (-k - 1) * 2 + 1) by (nonlinear_arith)
            requires q == k * 2 + 1,
        ;
        assert(-q - 1 == (-k - 1) * 2 + 0) by (nonlinear_arith)
            requires q == k * 2 + 1,
        ;
        lemma_fundamental_div_mod_converse(-q, 2, -k - 1, 1);
        lemma_fundamental_div_mod_converse(-q - 1, 2, -k - 1, 0);
    }
}

/// Rounding to nearest is an odd function of the numerator.
proof fn lemma_div_rhe_negated(n: int, d: int)
    requires
        d > 0,
    ensures
        div_round_half_even(-n, d) == -div_round_half_even(n, d),
{
    lemma_fundamental_div_mod(n, d);
    let q = n / d;
    let r = n % d;
    if r == 0 {
        assert(-n == (-q) * d + 0) by (nonlinear_arith)
            requires n == d * q + r, r == 0,
        ;
        lemma_fundamental_div_mod_converse(-n, d, -q, 0);
        lemma_parity_negation(q);
    } else {
        assert(-n == (-q - 1) * d + (d - r)) by (nonlinear_arith)
            requires n == d * q + r,
        ;
        lemma_fundamental_div_mod_converse(-n, d, -q - 1, d - r);
        lemma_parity_negation(q);
    }
}

/// Core of the rounded division on machine integers, nonnegative numerator.
fn div_rhe_nonneg(n: u128, d: u128) -> (r: u128)
    requires
        d > 0,
        n < 0x80000000000000000000000000000000u128,
    ensures
        r == div_round_half_even(n as int, d as int),
{
    let q = n / d;
    let rem = n % d;
    proof {
        lemma_fundamental_div_mod(n as int, d as int);
    }
    let other = d - rem;
    if rem < other {
        q
    } else if rem > other {
        q + 1
    } else if q % 2 == 0 {
        q
    } else {
        q + 1
    }
}

/// Nearest integer to `n / d` for `d > 0`, ties to even, on machine integers.
pub fn div_rhe(n: i128, d: i128) -> (r: i128)
    requires
        d > 0,
        -0x40000000000000000000000000000000i128 <= n <= 0x40000000000000000000000000000000i128,
    ensures
        r == div_round_half_even(n as int, d as int),
{
    let du = d as u128;
    if n >= 0 {
        let m = div_rhe_nonneg(n as u128, du);
        proof {
            lemma_div_basics_4(n as int, d as int);
            lemma_div_basics_5(n as int, d as int);
        }
        m as i128
    } else {
        let m = div_rhe_nonneg((-n) as u128, du);
        proof {
            lemma_div_rhe_negated((-n) as int, d as int);
            lemma_div_basics_4((-n) as int, d as int);
            lemma_div_basics_5((-n) as int, d as int);
        }
        -(m as i128)
    }
}

/// `pow2(126)` written out, for overflow bounds on 128-bit intermediates.
proof fn lemma_pow2_126()
    ensures
        pow2(126) == 0x40000000000000000000000000000000,
{
    lemma2_to64();
    lemma2_to64_rest();
    lemma_pow2_adds(63, 63);
}

/// `2^e` as an `i128`.
pub fn pow2_i128(e: u32) -> (r: i128)
    requires
        e <= 126,
    ensures
        r == pow2(e as nat),
        r > 0,
{
    let mut r: i128 = 1;
    let mut i: u32 = 0;
    proof {
        lemma2_to64();
    }
    while i < e
        invariant
            i <= e,
            e <= 126,
            r == pow2(i as nat),
            1 <= r,
        decreases e - i,
    {
        proof {
            lemma_pow2_adds(i as nat, 1);
            lemma2_to64();
            lemma_pow2_126();
            if (i + 1) as nat != 126 {
                lemma_pow2_strictly_increases((i + 1) as nat, 126);
            }
        }
        r = r * 2;
        i = i + 1;
    }
    r
}

/// `round_half_to_even(num/den * 2^s)`: quantizes the rational `num / den`
/// onto the fixed-point grid of scale `s`.
pub fn quantize(num: i128, den: i128, s: Scale) -> (r: i128)
    requires
        0 < den <= 0x4000000000000000i128,
        -0x4000000000000000i128 <= num <= 0x4000000000000000i128,
        -64 <= s <= 64,
    ensures
        r == quantize_spec(num as int, den as int, s as int),
{
    if s >= 0 {
        let p = pow2_i128(s as u32);
        proof {
            lemma_pow2_le_64(s as nat);
            assert(num * p <= 0x40000000000000000000000000000000
                && -0x40000000000000000000000000000000 <= num * p) by (nonlinear_arith)
                requires
                    -0x4000000000000000 <= num <= 0x4000000000000000,
                    0 < p <= 0x10000000000000000,
            ;
        }
        div_rhe(num * p, den)
    } else {
        let e: u32 = (-(s as i64)) as u32;
        let p = pow2_i128(e);
        proof {
            assert(e as int == -(s as int));
            lemma_pow2_le_64(e as nat);
            assert(0 < den * p <= 0x40000000000000000000000000000000) by (nonlinear_arith)
                requires
                    0 < den <= 0x4000000000000000,
                    0 < p <= 0x10000000000000000,
            ;
        }
        div_rhe(num, den * p)
    }
}

/// `pow2(e) <= pow2(64)` for `e <= 64`, with the value of `pow2(64)` at hand.
proof fn lemma_pow2_le_64(e: nat)
    requires
        e <= 64,
    ensures
        pow2(e) <= 0x10000000000000000,
        pow2(e) > 0,
{
    lemma2_to64();
    lemma2_to64_rest();
    lemma_pow2_pos(e);
    if e != 64 {
        lemma_pow2_strictly_increases(e, 64);
    }
}

/// Moves `x` from scale `from` to scale `to`, rounding half to even when the
/// move loses precision.
pub fn rescale(x: i128, from: Scale, to: Scale) -> (r: i128)
    requires
        -63 <= from <= 63,
        -63 <= to <= 63,
        to - from <= 64,
        -0x4000000000000000i128 <= x <= 0x4000000000000000i128,
    ensures
        r == rescale_spec(x as int, from as int, to as int),
{
    if to >= from {
        let p = pow2_i128((to - from) as u32);
        proof {
            lemma_pow2_le_64((to - from) as nat);
            assert(x * p <= 0x40000000000000000000000000000000
                && -0x40000000000000000000000000000000 <= x * p) by (nonlinear_arith)
                requires
                    -0x4000000000000000 <= x <= 0x4000000000000000,
                    0 < p <= 0x10000000000000000,
            ;
        }
        x * p
    } else {
        let p = pow2_i128((from - to) as u32);
        div_rhe(x, p)
    }
}

/// Law: rescaling up and then back down returns the original value: for any
/// `x` and scales `s1 <= s2`, `rescale(rescale(x, s1, s2), s2, s1) == x`.
/// (Rescaling down first may round, so the order matters there.)
pub proof fn lemma_rescale_round_trip(x: int, s1: int, s2: int)
    requires
        s1 <= s2,
    ensures
        rescale_spec(rescale_spec(x, s1, s2), s2, s1) == x,
{
    let p = pow2((s2 - s1) as nat);
    lemma_pow2_pos((s2 - s1) as nat);
    if s1 == s2 {
        lemma2_to64();
        lemma_div_rhe_exact(x, 1);
        assert(x * pow2(0) == x);
    } else {
        lemma_div_rhe_exact(x, p as int);
    }
}

/// The scale-rebase policy: an intermediate scale is rebased back to
/// `input_scale` once it exceeds `input_scale * scale_rebase_multiplier`.
pub open spec fn should_rebase_spec(s: int, input_scale: int, multiplier: int) -> bool {
    s > input_scale * multiplier
}

/// Decides whether an intermediate result at scale `s` must be rebased down
/// to `input_scale`.
pub fn should_rebase(s: Scale, input_scale: Scale, multiplier: u32) -> (r: bool)
    requires
        -64 <= input_scale <= 64,
        multiplier <= 256,
    ensures
        r == should_rebase_spec(s as int, input_scale as int, multiplier as int),
{
    proof {
        assert((input_scale as i64) * (multiplier as i64) <= 64 * 256 && -64 * 256 <= (
        input_scale as i64) * (multiplier as i64)) by (nonlinear_arith)
            requires
                -64 <= input_scale <= 64,
                0 <= multiplier <= 256,
        ;
    }
    (s as i64) > (input_scale as i64) * (multiplier as i64)
}

} // verus!
