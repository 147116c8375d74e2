//! Exact changes between the raw grids of two moment encodings.
//!
//! An encoding declares `physical = (raw - offset) / scale`. A raw word moves
//! from a source grid to a target grid as `raw * ratio + bias`, where
//! `ratio = scale_t / scale_s` and `bias = offset_t - offset_s * ratio`. The
//! change is exact only if both are whole numbers. Scales and offsets are
//! IEEE-754 singles; the arithmetic here is on integers and does not round.

use crate::float32::{finite, negative, scaled, shift, significand, HIDDEN, SIGN};
use vstd::arithmetic::power2::{
    lemma2_to64, lemma2_to64_rest, lemma_pow2_adds, lemma_pow2_pos, lemma_pow2_strictly_increases,
    lemma_pow2_unfold, pow2,
};
use vstd::prelude::*;

verus! {

/// Target and source scale stand in the ratio `r`.
pub open spec fn is_ratio(source_scale: u32, target_scale: u32, r: int) -> bool {
    1 <= r <= u32::MAX && scaled(target_scale) == r * scaled(source_scale)
}

/// With ratio `r`, target and source offset differ by the bias `b`.
pub open spec fn is_bias(source_offset: u32, target_offset: u32, r: int, b: int) -> bool {
    &&& finite(source_offset)
    &&& finite(target_offset)
    &&& 0 <= b <= u32::MAX
    &&& scaled(target_offset) == scaled(source_offset) * r + b * pow2(149)
}

/// A number of the form `mag * 2^exp`, or its negative.
struct Dyadic {
    neg: bool,
    mag: u64,
    exp: u32,
}

impl Dyadic {
    /// The number in units of 2^-149.
    spec fn value(&self) -> int {
        signed(self.neg, self.mag * pow2(self.exp as nat))
    }
}

/// `n` or its negative.
spec fn signed(neg: bool, n: int) -> int {
    if neg {
        -n
    } else {
        n
    }
}

fn is_finite(bits: u32) -> (b: bool)
    ensures
        b == finite(bits),
{
    (bits % SIGN) / HIDDEN < 255
}

/// The number that a finite pattern stands for.
fn decode(bits: u32) -> (d: Dyadic)
    requires
        finite(bits),
    ensures
        d.value() == scaled(bits),
        d.mag < 2 * HIDDEN,
        d.exp <= 253,
        d.exp > 0 ==> d.mag >= HIDDEN,
        d.mag == significand(bits),
        d.exp == shift(bits),
        d.neg == negative(bits),
{
    let field: u32 = (bits % SIGN) / HIDDEN;
    let fraction: u32 = bits % HIDDEN;
    let neg: bool = bits >= SIGN;
    if field == 0 {
        Dyadic { neg, mag: fraction as u64, exp: 0 }
    } else {
        Dyadic { neg, mag: (HIDDEN + fraction) as u64, exp: field - 1 }
    }
}

/// A power of two.
fn power_of_two(k: u32) -> (p: u128)
    requires
        k <= 126,
    ensures
        p == pow2(k as nat),
{
    let mut p: u128 = 1;
    let mut i: u32 = 0;
    proof {
        lemma2_to64();
    }
    while i < k
        invariant
            i <= k,
            k <= 126,
            p == pow2(i as nat),
        decreases k - i,
    {
        proof {
            lemma_pow2_unfold((i + 1) as nat);
            lemma_pow2_strictly_increases(i as nat, 126);
            lemma_pow2_126();
        }
        p = p * 2;
        i += 1;
    }
    p
}

proof fn lemma_pow2_126()
    ensures
        pow2(126) == 0x4000_0000_0000_0000_0000_0000_0000_0000,
{
    lemma2_to64_rest();
    lemma_pow2_adds(63, 63);
}

proof fn lemma_cancel(a: int, b: int, p: int)
    requires
        p > 0,
        a * p == b * p,
    ensures
        a == b,
{
    assert(a == b) by (nonlinear_arith)
        requires
            p > 0,
            a * p == b * p,
    ;
}

/// Whether a pattern can serve as a scale: a number other than zero.
pub open spec fn usable_scale(bits: u32) -> bool {
    finite(bits) && scaled(bits) != 0
}

proof fn lemma_zero_scale(bits: u32)
    requires
        finite(bits),
    ensures
        scaled(bits) == 0 <==> significand(bits) == 0,
{
    lemma_pow2_pos(shift(bits));
    let p = pow2(shift(bits)) as int;
    assert(significand(bits) * p == 0 <==> significand(bits) == 0) by (nonlinear_arith)
        requires
            p > 0,
    ;
}

/// Whether a pattern can serve as a scale.
pub fn is_usable_scale(bits: u32) -> (b: bool)
    ensures
        b == usable_scale(bits),
{
    if !is_finite(bits) {
        return false;
    }
    proof {
        lemma_zero_scale(bits);
    }
    let d = decode(bits);
    d.mag != 0
}

/// At most one number is the ratio of two scales.
pub proof fn ratio_is_unique(source_scale: u32, target_scale: u32, r1: int, r2: int)
    requires
        usable_scale(source_scale),
        is_ratio(source_scale, target_scale, r1),
        is_ratio(source_scale, target_scale, r2),
    ensures
        r1 == r2,
{
    let s = scaled(source_scale);
    assert(r1 == r2) by (nonlinear_arith)
        requires
            s != 0,
            r1 * s == r2 * s,
    ;
}

/// At most one number is the bias of two offsets.
pub proof fn bias_is_unique(source_offset: u32, target_offset: u32, r: int, b1: int, b2: int)
    requires
        is_bias(source_offset, target_offset, r, b1),
        is_bias(source_offset, target_offset, r, b2),
    ensures
        b1 == b2,
{
    lemma_pow2_pos(149);
    lemma_cancel(b1, b2, pow2(149) as int);
}

/// The ratio of two scales, if it is a whole number.
pub fn exact_ratio(source_scale: u32, target_scale: u32) -> (r: Option<u32>)
    requires
        usable_scale(source_scale),
        usable_scale(target_scale),
    ensures
        match r {
            Some(r) => is_ratio(source_scale, target_scale, r as int),
            None => forall|r: int| !#[trigger] is_ratio(source_scale, target_scale, r),
        },
{
    let s = decode(source_scale);
    let t = decode(target_scale);
    proof {
        lemma_zero_scale(source_scale);
        lemma_zero_scale(target_scale);
        lemma2_to64();
        lemma2_to64_rest();
        lemma_pow2_pos(56);
    }
    let ghost (ps, pt) = (pow2(s.exp as nat) as int, pow2(t.exp as nat) as int);
    proof {
        lemma_pow2_pos(s.exp as nat);
        lemma_pow2_pos(t.exp as nat);
    }
    if s.neg != t.neg {
        assert forall|r: int| !#[trigger] is_ratio(source_scale, target_scale, r) by {
            let (a, b) = (s.mag * ps, t.mag * pt);
            assert(a > 0 && b > 0) by (nonlinear_arith)
                requires
                    s.mag > 0,
                    t.mag > 0,
                    ps > 0,
                    pt > 0,
                    a == s.mag * ps,
                    b == t.mag * pt,
            ;
            if r >= 1 {
                assert(b != r * (-a) && -b != r * a) by (nonlinear_arith)
                    requires
                        a > 0,
                        b > 0,
                        r >= 1,
                ;
            }
        }
        return None;
    }
    // With equal signs the magnitudes alone decide.
    assert forall|r: int| 1 <= r <= u32::MAX implies (#[trigger] is_ratio(
        source_scale,
        target_scale,
        r,
    ) <==> t.mag * pt == r * (s.mag * ps)) by {
        assert(-(t.mag * pt) == r * (-(s.mag * ps)) <==> t.mag * pt == r * (s.mag * ps))
            by (nonlinear_arith);
    }
    if t.exp >= s.exp {
        let k: u32 = t.exp - s.exp;
        proof {
            lemma_pow2_adds(k as nat, s.exp as nat);
        }
        let ghost pk = pow2(k as nat) as int;
        assert forall|r: int| 1 <= r <= u32::MAX implies (#[trigger] is_ratio(
            source_scale,
            target_scale,
            r,
        ) <==> t.mag * pk == r * s.mag) by {
            assert(t.mag * (pk * ps) == (t.mag * pk) * ps) by (nonlinear_arith);
            assert(r * (s.mag * ps) == (r * s.mag) * ps) by (nonlinear_arith);
            if t.mag * pt == r * (s.mag * ps) {
                lemma_cancel(t.mag * pk, r * s.mag, ps);
            }
        }
        if k > 56 {
            assert forall|r: int| !#[trigger] is_ratio(source_scale, target_scale, r) by {
                if 1 <= r <= u32::MAX {
                    lemma_pow2_strictly_increases(56, k as nat);
                    assert(t.mag * pk > r * s.mag) by (nonlinear_arith)
                        requires
                            t.mag >= HIDDEN,
                            0 < s.mag < 2 * HIDDEN,
                            pk >= 0x100_0000_0000_0000,
                            1 <= r <= u32::MAX,
                    ;
                }
            }
            return None;
        }
        let p: u128 = power_of_two(k);
        proof {
            lemma_pow2_pos(k as nat);
            if k < 56 {
                lemma_pow2_strictly_increases(k as nat, 56);
            }
            assert(0 < t.mag * p <= 0x1_0000_0000_0000_0000_0000) by (nonlinear_arith)
                requires
                    0 < t.mag < 2 * HIDDEN,
                    0 < p <= 0x100_0000_0000_0000,
            ;
        }
        let num: u128 = t.mag as u128 * p;
        whole_quotient(num, s.mag as u128, source_scale, target_scale)
    } else {
        let k: u32 = s.exp - t.exp;
        proof {
            lemma_pow2_adds(k as nat, t.exp as nat);
        }
        let ghost pk = pow2(k as nat) as int;
        assert forall|r: int| 1 <= r <= u32::MAX implies (#[trigger] is_ratio(
            source_scale,
            target_scale,
            r,
        ) <==> t.mag == r * (s.mag * pk)) by {
            assert(r * (s.mag * (pk * pt)) == (r * (s.mag * pk)) * pt) by (nonlinear_arith);
            if t.mag * pt == r * (s.mag * ps) {
                lemma_cancel(t.mag as int, r * (s.mag * pk), pt);
            }
        }
        if k > 24 {
            assert forall|r: int| !#[trigger] is_ratio(source_scale, target_scale, r) by {
                if 1 <= r <= u32::MAX {
                    lemma_pow2_strictly_increases(24, k as nat);
                    assert(t.mag < r * (s.mag * pk)) by (nonlinear_arith)
                        requires
                            t.mag < 2 * HIDDEN,
                            s.mag >= HIDDEN,
                            pk >= 0x100_0000,
                            1 <= r,
                    ;
                }
            }
            return None;
        }
        let p: u128 = power_of_two(k);
        proof {
            lemma_pow2_pos(k as nat);
            if k < 24 {
                lemma_pow2_strictly_increases(k as nat, 24);
            }
            assert(0 < s.mag * p <= 0x1_0000_0000_0000_0000_0000) by (nonlinear_arith)
                requires
                    0 < s.mag < 2 * HIDDEN,
                    0 < p <= 0x100_0000,
            ;
        }
        let den: u128 = s.mag as u128 * p;
        whole_quotient(t.mag as u128, den, source_scale, target_scale)
    }
}

/// `num / den`, if it is whole and fits.
fn whole_quotient(num: u128, den: u128, source_scale: u32, target_scale: u32) -> (r: Option<u32>)
    requires
        num > 0,
        den > 0,
        forall|r: int|
            1 <= r <= u32::MAX ==> (#[trigger] is_ratio(source_scale, target_scale, r) <==> num == r
                * den),
    ensures
        match r {
            Some(r) => is_ratio(source_scale, target_scale, r as int),
            None => forall|r: int| !#[trigger] is_ratio(source_scale, target_scale, r),
        },
{
    let q: u128 = num / den;
    proof {
        vstd::arithmetic::div_mod::lemma_fundamental_div_mod(num as int, den as int);
        assert forall|r: int| #[trigger] is_ratio(source_scale, target_scale, r) implies r == q
            && num % den == 0 by {
            assert(num == r * den);
            vstd::arithmetic::div_mod::lemma_div_multiples_vanish(r, den as int);
            vstd::arithmetic::div_mod::lemma_mod_multiples_basic(r, den as int);
            assert(r * den == den * r) by (nonlinear_arith);
        }
    }
    if num % den != 0 || q > u32::MAX as u128 {
        return None;
    }
    proof {
        assert(num == q * den) by (nonlinear_arith)
            requires
                num == den * q + 0,
        ;
        assert(q >= 1) by (nonlinear_arith)
            requires
                num == q * den,
                num > 0,
                q >= 0,
        ;
    }
    Some(q as u32)
}

/// Halve an even magnitude as often as it goes.
fn reduce(d: Dyadic) -> (r: Dyadic)
    requires
        d.exp <= 253,
        d.mag < 2 * HIDDEN,
    ensures
        r.value() == d.value(),
        r.neg == d.neg,
        r.mag <= d.mag,
        r.mag == 0 <==> d.mag == 0,
        r.mag != 0 ==> r.mag % 2 == 1,
        r.exp <= 253 + d.mag,
{
    let mut mag: u64 = d.mag;
    let mut exp: u32 = d.exp;
    while mag != 0 && mag % 2 == 0
        invariant
            mag <= d.mag < 2 * HIDDEN,
            mag == 0 <==> d.mag == 0,
            d.exp <= 253,
            exp + mag <= 253 + d.mag,
            mag * pow2(exp as nat) == d.mag * pow2(d.exp as nat),
        decreases mag,
    {
        proof {
            lemma_pow2_unfold((exp + 1) as nat);
            let (half, p) = (mag as int / 2, pow2(exp as nat) as int);
            assert((2 * half) * p == half * (2 * p)) by (nonlinear_arith);
        }
        mag = mag / 2;
        exp = exp + 1;
    }
    Dyadic { neg: d.neg, mag, exp }
}

/// If an odd number times `r` is a multiple of a power of two, `r` is one.
proof fn lemma_odd_factor(o: int, r: int, j: nat)
    requires
        o % 2 == 1,
        (o * r) % (pow2(j) as int) == 0,
    ensures
        r % (pow2(j) as int) == 0,
    decreases j,
{
    lemma_pow2_pos(j);
    if j == 0 {
        lemma2_to64();
    } else {
        let p = pow2((j - 1) as nat) as int;
        lemma_pow2_pos((j - 1) as nat);
        lemma_pow2_unfold(j);
        let c = (o * r) / (2 * p);
        vstd::arithmetic::div_mod::lemma_fundamental_div_mod(o * r, 2 * p);
        assert(o * r == 2 * (p * c)) by (nonlinear_arith)
            requires
                o * r == (2 * p) * c + 0,
        ;
        assert(r % 2 == 0) by (nonlinear_arith)
            requires
                o % 2 == 1,
                o * r == 2 * (p * c),
        {
            let h = (o - 1) / 2;
            assert(o == 2 * h + 1);
            assert((2 * h + 1) * r == 2 * (h * r) + r);
        }
        let half = r / 2;
        assert(o * half == p * c) by (nonlinear_arith)
            requires
                r == 2 * half,
                o * r == 2 * (p * c),
        ;
        vstd::arithmetic::div_mod::lemma_mod_multiples_basic(c, p);
        assert((p * c) == c * p) by (nonlinear_arith);
        lemma_odd_factor(o, half, (j - 1) as nat);
        let q = half / p;
        vstd::arithmetic::div_mod::lemma_fundamental_div_mod(half, p);
        assert(r == q * (2 * p)) by (nonlinear_arith)
            requires
                r == 2 * half,
                half == p * q + 0,
        ;
        vstd::arithmetic::div_mod::lemma_mod_multiples_basic(q, 2 * p);
    }
}

/// The number of times 2^149 goes into `d * 2^low`, if it does so evenly.
fn whole_units(d: i128, low: u32) -> (r: Option<u32>)
    ensures
        match r {
            Some(b) => d * pow2(low as nat) == b * pow2(149),
            None => forall|b: int|
                0 <= b <= u32::MAX ==> d * pow2(low as nat) != #[trigger] (b * pow2(149)),
        },
{
    let ghost (pl, pu) = (pow2(low as nat) as int, pow2(149) as int);
    proof {
        lemma_pow2_pos(low as nat);
        lemma_pow2_pos(149);
        lemma2_to64();
    }
    if d == 0 {
        assert(0 * pl == 0 && 0 * pu == 0);
        return Some(0);
    }
    if d < 0 {
        assert forall|b: int| 0 <= b <= u32::MAX implies d * pl != #[trigger] (b * pu) by {
            assert(d * pl < 0 && b * pu >= 0) by (nonlinear_arith)
                requires
                    d < 0,
                    pl > 0,
                    b >= 0,
                    pu > 0,
            ;
        }
        return None;
    }
    if low >= 149 {
        let e: u32 = low - 149;
        let ghost pe = pow2(e as nat) as int;
        proof {
            lemma_pow2_adds(e as nat, 149);
            lemma_pow2_pos(e as nat);
            assert(d * (pe * pu) == (d * pe) * pu) by (nonlinear_arith);
            assert forall|b: int| d * pl == #[trigger] (b * pu) implies b == d * pe by {
                lemma_cancel(d * pe, b, pu);
            }
        }
        if e > 32 || d > u32::MAX as i128 {
            assert(d * pe > u32::MAX) by {
                if e > 32 {
                    lemma_pow2_strictly_increases(32, e as nat);
                    assert(d * pe >= pe) by (nonlinear_arith)
                        requires
                            d >= 1,
                            pe > 0,
                    ;
                } else {
                    assert(d * pe >= d) by (nonlinear_arith)
                        requires
                            d >= 1,
                            pe >= 1,
                    ;
                }
            }
            return None;
        }
        let p: u128 = power_of_two(e);
        proof {
            if e < 32 {
                lemma_pow2_strictly_increases(e as nat, 32);
            }
            assert(0 <= d * p <= 0x1_0000_0000_0000_0000) by (nonlinear_arith)
                requires
                    0 <= d <= u32::MAX,
                    0 <= p <= 0x1_0000_0000,
            ;
        }
        let v: i128 = d * (p as i128);
        if v > u32::MAX as i128 {
            return None;
        }
        Some(v as u32)
    } else {
        let e: u32 = 149 - low;
        let ghost pe = pow2(e as nat) as int;
        proof {
            lemma_pow2_adds(low as nat, e as nat);
            lemma_pow2_pos(e as nat);
            assert forall|b: int| d * pl == #[trigger] (b * pu) <==> d == b * pe by {
                assert(b * (pl * pe) == (b * pe) * pl) by (nonlinear_arith);
                if d * pl == b * pu {
                    lemma_cancel(d as int, b * pe, pl);
                }
            }
        }
        if e > 126 {
            assert forall|b: int| 0 <= b <= u32::MAX implies d * pl != #[trigger] (b * pu) by {
                lemma_pow2_strictly_increases(126, e as nat);
                lemma_pow2_126();
                lemma_pow2_unfold(127);
                if e > 127 {
                    lemma_pow2_strictly_increases(127, e as nat);
                }
                if d == b * pe {
                    assert(b * pe >= pe || b * pe <= 0) by (nonlinear_arith)
                        requires
                            pe > 0,
                            b >= 0,
                    ;
                }
            }
            return None;
        }
        let p: u128 = power_of_two(e);
        let u: u128 = d as u128;
        let b: u128 = u / p;
        proof {
            vstd::arithmetic::div_mod::lemma_fundamental_div_mod(u as int, p as int);
            assert forall|c: int| d == #[trigger] (c * pe) implies c == b && u % p == 0 by {
                vstd::arithmetic::div_mod::lemma_div_multiples_vanish(c, pe);
                vstd::arithmetic::div_mod::lemma_mod_multiples_basic(c, pe);
                assert(c * pe == pe * c) by (nonlinear_arith);
            }
        }
        if u % p != 0 || b > u32::MAX as u128 {
            assert forall|c: int| 0 <= c <= u32::MAX implies d * pl != #[trigger] (c * pu) by {
                if d * pl == c * pu {
                    assert(d == c * pe);
                }
            }
            return None;
        }
        proof {
            assert(d == b * pe) by (nonlinear_arith)
                requires
                    d == pe * b + 0,
            ;
            assert(d * pl == b as int * pu);
        }
        Some(b as u32)
    }
}

/// Two terms whose powers of two lie far apart do not add up to a small whole
/// number: the difference of a multiple of `2^g` and `x`, which is not a
/// multiple of `2^38`, is not `b * 2^149 / 2^low`.
proof fn lemma_far_apart(a: int, x: int, g: nat, low: nat, b: int)
    requires
        g > 70,
        a >= 1 || a <= -1,
        -0x100_0000_0000_0000 <= x <= 0x100_0000_0000_0000,
        x % (pow2(38) as int) != 0,
        0 <= b <= u32::MAX,
    ensures
        (a * pow2(g) - x) * pow2(low) != b * pow2(149),
{
    lemma2_to64();
    lemma2_to64_rest();
    let pg = pow2(g) as int;
    let pl = pow2(low) as int;
    lemma_pow2_pos(low);
    lemma_pow2_pos(g);
    lemma_pow2_strictly_increases(70, g);
    lemma_pow2_adds(62, 8);
    let diff = a * pg - x;
    assert(diff >= 0x1_0000_0000_0000_0000 || diff <= -0x1_0000_0000_0000_0000)
        by (nonlinear_arith)
        requires
            diff == a * pg - x,
            a >= 1 || a <= -1,
            pg >= 0x40_0000_0000_0000_0000,
            -0x100_0000_0000_0000 <= x <= 0x100_0000_0000_0000,
    ;
    if diff * pl == b * pow2(149) {
        let pu = pow2(149) as int;
        if low >= 149 {
            lemma_pow2_adds((low - 149) as nat, 149);
            let pe = pow2((low - 149) as nat) as int;
            lemma_pow2_pos((low - 149) as nat);
            lemma_pow2_pos(149);
            assert(diff * (pe * pu) == (diff * pe) * pu) by (nonlinear_arith);
            lemma_cancel(diff * pe, b, pu);
            assert(diff * pe >= 0x1_0000_0000_0000_0000 || diff * pe
                <= -0x1_0000_0000_0000_0000) by (nonlinear_arith)
                requires
                    diff >= 0x1_0000_0000_0000_0000 || diff <= -0x1_0000_0000_0000_0000,
                    pe >= 1,
            ;
        } else {
            let n = (149 - low) as nat;
            lemma_pow2_adds(low, n);
            let pn = pow2(n) as int;
            lemma_pow2_pos(n);
            assert(b * (pl * pn) == (b * pn) * pl) by (nonlinear_arith);
            lemma_cancel(diff, b * pn, pl);
            // A sum this large needs a large power of two.
            lemma_large_multiple(a, x, pg, b, pn, n);
            assert(n >= 38);
            let p38 = pow2(38) as int;
            lemma_pow2_adds((n - 38) as nat, 38);
            lemma_pow2_adds((g - 38) as nat, 38);
            let (cn, cg) = (pow2((n - 38) as nat) as int, pow2((g - 38) as nat) as int);
            assert(x == (a * cg - b * cn) * p38) by (nonlinear_arith)
                requires
                    a * (cg * p38) - x == b * (cn * p38),
            ;
            vstd::arithmetic::div_mod::lemma_mod_multiples_basic(a * cg - b * cn, p38);
        }
    }
}

proof fn lemma_large_multiple(a: int, x: int, pg: int, b: int, pn: int, n: nat)
    requires
        a >= 1 || a <= -1,
        -0x100_0000_0000_0000 <= x <= 0x100_0000_0000_0000,
        pg >= 0x40_0000_0000_0000_0000,
        0 <= b <= u32::MAX,
        a * pg - x == b * pn,
        pn == pow2(n),
    ensures
        n >= 38,
{
    lemma2_to64();
    lemma2_to64_rest();
    if n < 38 {
        if n < 37 {
            lemma_pow2_strictly_increases(n, 37);
        }
        assert(b * pn <= 0x20_0000_0000_0000_0000) by (nonlinear_arith)
            requires
                0 <= b <= u32::MAX,
                0 <= pn <= 0x20_0000_0000,
        ;
        assert(a * pg - x >= 0x3F_0000_0000_0000_0000 || a * pg - x <= -0x3F_0000_0000_0000_0000)
            by (nonlinear_arith)
            requires
                a >= 1 || a <= -1,
                pg >= 0x40_0000_0000_0000_0000,
                -0x100_0000_0000_0000 <= x <= 0x100_0000_0000_0000,
        ;
        assert(b * pn >= 0) by (nonlinear_arith)
            requires
                b >= 0,
                pn >= 0,
        ;
    }
}

/// The bias of two offsets under a ratio, if it is a whole number.
pub fn exact_bias(source_offset: u32, target_offset: u32, r: u32) -> (b: Option<u32>)
    requires
        r >= 1,
    ensures
        match b {
            Some(b) => is_bias(source_offset, target_offset, r as int, b as int),
            None => forall|b: int| !#[trigger] is_bias(source_offset, target_offset, r as int, b),
        },
{
    if !is_finite(source_offset) || !is_finite(target_offset) {
        return None;
    }
    let s = reduce(decode(source_offset));
    let t = reduce(decode(target_offset));
    let ghost (sv, tv) = (scaled(source_offset), scaled(target_offset));
    proof {
        assert(0 <= s.mag * r < 0x100_0000_0000_0000) by (nonlinear_arith)
            requires
                0 <= s.mag < 2 * HIDDEN,
                0 <= r <= u32::MAX,
        ;
    }
    let q: u64 = s.mag * r as u64;
    // A zero takes the other number's power of two.
    let te: u32 = if t.mag == 0 {
        s.exp
    } else {
        t.exp
    };
    let se: u32 = if s.mag == 0 {
        te
    } else {
        s.exp
    };
    let ghost (pt, ps) = (pow2(te as nat) as int, pow2(se as nat) as int);
    let ghost (gt, gs) = (signed(t.neg, t.mag as int), signed(s.neg, q as int));
    proof {
        let (pte, pse) = (pow2(t.exp as nat) as int, pow2(s.exp as nat) as int);
        assert(tv == gt * pt) by {
            assert(-(t.mag * pte) == (-(t.mag as int)) * pte) by (nonlinear_arith);
            assert(0 * pt == 0 && 0 * pte == 0);
        }
        assert(sv * r == gs * ps) by {
            assert((s.mag * pse) * r == (s.mag * r) * pse) by (nonlinear_arith);
            assert((-(s.mag * pse)) * r == (-(s.mag * r)) * pse) by (nonlinear_arith);
            assert(0 * ps == 0 && 0 * pse == 0 && 0 * r == 0);
        }
    }
    if te > se && te - se > 70 {
        let ghost g = (te - se) as nat;
        proof {
            lemma_pow2_adds(g, se as nat);
            lemma_not_multiple(s.mag as int, r as int, gs);
            assert forall|b: int| !#[trigger] is_bias(
                source_offset,
                target_offset,
                r as int,
                b,
            ) by {
                if 0 <= b <= u32::MAX {
                    lemma_far_apart(gt, gs, g, se as nat, b);
                    let pg = pow2(g) as int;
                    assert(gt * (pg * ps) - gs * ps == (gt * pg - gs) * ps) by (nonlinear_arith);
                }
            }
        }
        return None;
    }
    if se > te && se - te > 70 {
        let ghost g = (se - te) as nat;
        proof {
            lemma_pow2_adds(g, te as nat);
            lemma_not_multiple(t.mag as int, 1, gt);
            assert forall|b: int| !#[trigger] is_bias(
                source_offset,
                target_offset,
                r as int,
                b,
            ) by {
                if 0 <= b <= u32::MAX {
                    assert((-gt) % (pow2(38) as int) != 0) by {
                        lemma_pow2_pos(38);
                        lemma_negated_multiple(gt, pow2(38) as int);
                    }
                    assert(q >= 1) by (nonlinear_arith)
                        requires
                            q == s.mag * r,
                            s.mag >= 1,
                            r >= 1,
                    ;
                    lemma_far_apart(-gs, -gt, g, te as nat, b);
                    let pg = pow2(g) as int;
                    assert(gt * pt - gs * (pg * pt) == ((-gs) * pg - (-gt)) * pt)
                        by (nonlinear_arith);
                }
            }
        }
        return None;
    }
    let low: u32 = if te < se {
        te
    } else {
        se
    };
    let a: u128 = power_of_two(te - low);
    let c: u128 = power_of_two(se - low);
    proof {
        lemma_pow2_pos(70);
        lemma2_to64_rest();
        lemma2_to64();
        lemma_pow2_adds(62, 8);
        if te - low < 70 {
            lemma_pow2_strictly_increases((te - low) as nat, 70);
        }
        if se - low < 70 {
            lemma_pow2_strictly_increases((se - low) as nat, 70);
        }
        assert(0 <= t.mag * a < 0x1_0000_0000_0000_0000_0000_0000) by (nonlinear_arith)
            requires
                0 <= t.mag < 2 * HIDDEN,
                0 <= a <= 0x40_0000_0000_0000_0000,
        ;
        assert(0 <= q * c < 0x4000_0000_0000_0000_0000_0000_0000_0000) by (nonlinear_arith)
            requires
                0 <= q < 0x100_0000_0000_0000,
                0 <= c <= 0x40_0000_0000_0000_0000,
        ;
    }
    let ta: i128 = (t.mag as u128 * a) as i128;
    let sc: i128 = (q as u128 * c) as i128;
    let d: i128 = (if t.neg {
        -ta
    } else {
        ta
    }) - (if s.neg {
        -sc
    } else {
        sc
    });
    proof {
        lemma_pow2_adds((te - low) as nat, low as nat);
        lemma_pow2_adds((se - low) as nat, low as nat);
        let pl = pow2(low as nat) as int;
        assert((-(t.mag as int)) * a == -(t.mag * a)) by (nonlinear_arith);
        assert((-(q as int)) * c == -(q * c)) by (nonlinear_arith);
        assert(d * pl == tv - sv * r) by (nonlinear_arith)
            requires
                tv == gt * (a * pl),
                sv * r == gs * (c * pl),
                d == gt * a - gs * c,
        ;
    }
    let b = whole_units(d, low);
    proof {
        assert forall|x: int| #[trigger] is_bias(source_offset, target_offset, r as int, x)
            implies d * pow2(low as nat) == x * pow2(149) by {}
    }
    b
}

proof fn lemma_negated_multiple(x: int, m: int)
    requires
        m > 0,
        x % m != 0,
    ensures
        (-x) % m != 0,
{
    if (-x) % m == 0 {
        let c = (-x) / m;
        vstd::arithmetic::div_mod::lemma_fundamental_div_mod(-x, m);
        assert(x == (-c) * m) by (nonlinear_arith)
            requires
                -x == m * c + 0,
        ;
        vstd::arithmetic::div_mod::lemma_mod_multiples_basic(-c, m);
    }
}

/// An odd number times a 32-bit number, with either sign, is not a multiple of
/// 2^38.
proof fn lemma_not_multiple(o: int, r: int, x: int)
    requires
        o % 2 == 1,
        1 <= r <= u32::MAX,
        x == o * r || x == -(o * r),
    ensures
        x % (pow2(38) as int) != 0,
{
    lemma2_to64_rest();
    let m = pow2(38) as int;
    if (o * r) % m == 0 {
        lemma_odd_factor(o, r, 38);
        assert(r % m == r);
    }
    lemma_negated_multiple(o * r, m);
}

} // verus!
