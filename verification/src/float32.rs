//! IEEE-754 single-precision numbers as bit patterns.
//!
//! A finite single is an integer multiple of 2^-149. [`scaled`] gives that
//! integer, which makes sums, products and comparisons of singles exact.

use vstd::arithmetic::power2::{lemma_pow2_adds, lemma_pow2_pos, lemma_pow2_strictly_increases, pow2};
use vstd::prelude::*;

verus! {

/// 2^23: the weight of a normal number's leading significand bit.
pub const HIDDEN: u32 = 0x80_0000;

/// 2^31: the weight of the sign bit.
pub const SIGN: u32 = 0x8000_0000;

/// Pattern of positive infinity.
pub const INFINITY_BITS: u32 = 0x7F80_0000;

/// Pattern of 0.5.
pub const HALF_BITS: u32 = 0x3F00_0000;

/// Pattern of 1.
pub const ONE_BITS: u32 = 0x3F80_0000;

/// Pattern of the quiet NaN that marks an unknown number.
pub const NAN_BITS: u32 = 0x7FC0_0000;

/// Pattern of 2.
pub const TWO_BITS: u32 = 0x4000_0000;

/// The biased exponent field.
pub open spec fn exponent_field(bits: u32) -> int {
    (bits as int % SIGN as int) / HIDDEN as int
}

/// The fraction field.
pub open spec fn fraction_field(bits: u32) -> int {
    bits as int % HIDDEN as int
}

/// Whether the number is negative or negative zero.
pub open spec fn negative(bits: u32) -> bool {
    bits >= SIGN
}

/// Whether the pattern is a number: neither infinite nor NaN.
pub open spec fn finite(bits: u32) -> bool {
    exponent_field(bits) < 255
}

/// Whether the pattern is a NaN.
pub open spec fn nan(bits: u32) -> bool {
    bits as int % SIGN as int > INFINITY_BITS
}

/// The significand of a finite number as an integer.
pub open spec fn significand(bits: u32) -> int {
    if exponent_field(bits) == 0 {
        fraction_field(bits)
    } else {
        HIDDEN + fraction_field(bits)
    }
}

/// The power of two, counted from 2^-149, that a finite number's significand
/// is multiplied with.
pub open spec fn shift(bits: u32) -> nat {
    if exponent_field(bits) == 0 {
        0
    } else {
        (exponent_field(bits) - 1) as nat
    }
}

/// The magnitude of a finite number in units of 2^-149.
pub open spec fn scaled_magnitude(bits: u32) -> int {
    significand(bits) * pow2(shift(bits))
}

/// A finite number in units of 2^-149.
pub open spec fn scaled(bits: u32) -> int {
    if negative(bits) {
        -scaled_magnitude(bits)
    } else {
        scaled_magnitude(bits)
    }
}

/// An integer that orders all patterns but NaN as their numbers: smaller
/// numbers have smaller keys and the two zeros share one.
pub open spec fn order_key(bits: u32) -> int {
    if negative(bits) {
        -(bits - SIGN)
    } else {
        bits as int
    }
}

/// Whether the pattern is a NaN.
pub fn is_nan(bits: u32) -> (b: bool)
    ensures
        b == nan(bits),
{
    bits % SIGN > INFINITY_BITS
}

/// See [`order_key`].
pub fn order_key_of(bits: u32) -> (k: i64)
    ensures
        k == order_key(bits),
        -SIGN < k < SIGN,
{
    if bits >= SIGN {
        -((bits - SIGN) as i64)
    } else {
        bits as i64
    }
}

proof fn lemma_magnitude_increases(a: u32, b: u32)
    requires
        a < b < INFINITY_BITS,
    ensures
        scaled_magnitude(a) < scaled_magnitude(b),
{
    let (ea, eb) = (exponent_field(a), exponent_field(b));
    let (fa, fb) = (fraction_field(a), fraction_field(b));
    assert(a == ea * HIDDEN + fa && b == eb * HIDDEN + fb);
    assert(0 <= fa < HIDDEN && 0 <= fb < HIDDEN);
    assert(ea <= eb);
    let (pa, pb) = (pow2(shift(a)) as int, pow2(shift(b)) as int);
    lemma_pow2_pos(shift(a));
    lemma_pow2_pos(shift(b));
    if ea == eb || (ea == 0 && eb == 1) {
        assert(pa == pb);
        assert(significand(a) < significand(b));
        assert(significand(a) * pa < significand(b) * pa) by (nonlinear_arith)
            requires
                significand(a) < significand(b),
                pa > 0,
        ;
    } else {
        assert(shift(a) < shift(b));
        assert(pow2(1) == 2) by {
            vstd::arithmetic::power2::lemma2_to64();
        }
        lemma_pow2_adds(shift(a), (shift(b) - shift(a)) as nat);
        if shift(b) - shift(a) > 1 {
            lemma_pow2_strictly_increases(1, (shift(b) - shift(a)) as nat);
        }
        let q = pow2((shift(b) - shift(a)) as nat) as int;
        assert(q >= 2);
        assert(pb == pa * q);
        assert(significand(a) < 2 * HIDDEN);
        assert(significand(b) >= HIDDEN);
        assert(significand(a) * pa < significand(b) * (pa * q)) by (nonlinear_arith)
            requires
                0 <= significand(a) < 2 * HIDDEN,
                significand(b) >= HIDDEN,
                pa > 0,
                q >= 2,
        ;
    }
}

proof fn lemma_zero_magnitude()
    ensures
        scaled_magnitude(0) == 0,
{
    assert(significand(0) == 0);
}

/// The keys of finite numbers compare as the numbers themselves.
pub proof fn order_key_orders_numbers(a: u32, b: u32)
    requires
        finite(a),
        finite(b),
    ensures
        order_key(a) < order_key(b) <==> scaled(a) < scaled(b),
        order_key(a) == order_key(b) <==> scaled(a) == scaled(b),
{
    let ma = (a as int % SIGN as int) as u32;
    let mb = (b as int % SIGN as int) as u32;
    assert(ma as int % SIGN as int == ma && mb as int % SIGN as int == mb);
    assert(ma as int % HIDDEN as int == a as int % HIDDEN as int);
    assert(mb as int % HIDDEN as int == b as int % HIDDEN as int);
    assert(scaled_magnitude(ma) == scaled_magnitude(a));
    assert(scaled_magnitude(mb) == scaled_magnitude(b));
    assert(ma < INFINITY_BITS && mb < INFINITY_BITS);
    lemma_zero_magnitude();
    if ma < mb {
        lemma_magnitude_increases(ma, mb);
    }
    if mb < ma {
        lemma_magnitude_increases(mb, ma);
    }
    if 0 < ma {
        lemma_magnitude_increases(0, ma);
    }
    if 0 < mb {
        lemma_magnitude_increases(0, mb);
    }
}

/// `bits` is the single whose value is `n / 8192`; zero is positive.
pub open spec fn is_8192ths(bits: u32, n: int) -> bool {
    &&& finite(bits)
    &&& scaled(bits) == n * pow2(136)
    &&& n == 0 ==> bits == 0
}

/// The single whose value is `n / 8192`.
pub open spec fn single_of_8192ths(n: int) -> u32 {
    choose|bits: u32| is_8192ths(bits, n)
}

proof fn lemma_8192ths_unique(a: u32, b: u32, n: int)
    requires
        is_8192ths(a, n),
        is_8192ths(b, n),
    ensures
        a == b,
{
    order_key_orders_numbers(a, b);
    lemma_zero_magnitude();
    order_key_orders_numbers(a, 0);
    lemma_pow2_pos(136);
    if n != 0 {
        assert(n * pow2(136) != 0) by (nonlinear_arith)
            requires
                n != 0,
                pow2(136) > 0,
        ;
    }
}

/// The single whose value is `n / 8192`.
pub fn from_8192ths(n: i32) -> (bits: u32)
    requires
        -0x100_0000 < n < 0x100_0000,
    ensures
        is_8192ths(bits, n as int),
        bits == single_of_8192ths(n as int),
{
    let bits: u32 = encode_8192ths(n);
    proof {
        lemma_8192ths_unique(bits, single_of_8192ths(n as int), n as int);
    }
    bits
}

fn encode_8192ths(n: i32) -> (bits: u32)
    requires
        -0x100_0000 < n < 0x100_0000,
    ensures
        is_8192ths(bits, n as int),
{
    if n == 0 {
        proof {
            lemma_zero_magnitude();
            assert(n * pow2(136) == 0) by (nonlinear_arith)
                requires
                    n == 0,
            ;
        }
        return 0;
    }
    let mag: u32 = if n < 0 {
        (-n) as u32
    } else {
        n as u32
    };
    let mut m: u32 = mag;
    let mut k: u32 = 136;
    proof {
        vstd::arithmetic::power2::lemma2_to64();
    }
    while m < HIDDEN
        invariant
            1 <= mag < 2 * HIDDEN,
            m < 2 * HIDDEN,
            113 <= k <= 136,
            m >= pow2((136 - k) as nat),
            m * pow2(k as nat) == mag * pow2(136),
        decreases 2 * HIDDEN - m,
    {
        proof {
            let j = (136 - k) as nat;
            vstd::arithmetic::power2::lemma2_to64();
            if k == 113 {
                assert(pow2(23) == HIDDEN);
            }
            vstd::arithmetic::power2::lemma_pow2_unfold(k as nat);
            vstd::arithmetic::power2::lemma_pow2_unfold((j + 1) as nat);
            let q = pow2((k - 1) as nat) as int;
            assert((m * 2) * q == m * (2 * q)) by (nonlinear_arith);
        }
        m = m * 2;
        k = k - 1;
    }
    let field: u32 = (k + 1) * HIDDEN;
    let bits: u32 = field + (m - HIDDEN);
    proof {
        assert(bits as int / HIDDEN as int == k + 1);
        assert(bits as int % HIDDEN as int == m - HIDDEN);
    }
    if n < 0 {
        proof {
            assert((bits + SIGN) as int % SIGN as int == bits);
            assert(n * pow2(136) == -(mag * pow2(136))) by (nonlinear_arith)
                requires
                    n == -mag,
            ;
        }
        bits + SIGN
    } else {
        bits
    }
}

/// The named patterns are those of one half, one and two.
pub proof fn named_patterns_are_their_numbers()
    ensures
        finite(HALF_BITS) && 2 * scaled(HALF_BITS) == pow2(149),
        finite(ONE_BITS) && scaled(ONE_BITS) == pow2(149),
        finite(TWO_BITS) && scaled(TWO_BITS) == 2 * pow2(149),
        nan(NAN_BITS),
{
    vstd::arithmetic::power2::lemma2_to64();
    assert(pow2(23) == HIDDEN);
    lemma_pow2_adds(23, 125);
    lemma_pow2_adds(23, 126);
    lemma_pow2_adds(23, 127);
    lemma_pow2_adds(1, 148);
    lemma_pow2_adds(1, 149);
    assert(exponent_field(HALF_BITS) == 126 && fraction_field(HALF_BITS) == 0);
    assert(exponent_field(ONE_BITS) == 127 && fraction_field(ONE_BITS) == 0);
    assert(exponent_field(TWO_BITS) == 128 && fraction_field(TWO_BITS) == 0);
}

/// A positive multiple of 1/8192 in the form that a single has: a significand
/// of 24 bits and the power of two that goes with it.
proof fn lemma_normal_form(m: int, k: int, mag: int) -> (r: (int, int))
    requires
        0 < m < 2 * HIDDEN,
        113 <= k <= 136,
        m >= pow2((136 - k) as nat),
        m * pow2(k as nat) == mag * pow2(136),
    ensures
        HIDDEN <= r.0 < 2 * HIDDEN,
        113 <= r.1 <= 136,
        r.0 * pow2(r.1 as nat) == mag * pow2(136),
    decreases 2 * HIDDEN - m,
{
    if m >= HIDDEN {
        (m, k)
    } else {
        let j = (136 - k) as nat;
        vstd::arithmetic::power2::lemma2_to64();
        if k == 113 {
            assert(pow2(23) == HIDDEN);
        }
        vstd::arithmetic::power2::lemma_pow2_unfold(k as nat);
        vstd::arithmetic::power2::lemma_pow2_unfold((j + 1) as nat);
        let q = pow2((k - 1) as nat) as int;
        assert((m * 2) * q == m * (2 * q)) by (nonlinear_arith);
        lemma_normal_form(m * 2, k - 1, mag)
    }
}

/// Every multiple of 1/8192 below 2048 in magnitude is a single.
pub proof fn small_multiples_of_8192ths_are_singles(n: int)
    requires
        -0x100_0000 < n < 0x100_0000,
    ensures
        is_8192ths(single_of_8192ths(n), n),
{
    if n == 0 {
        lemma_zero_magnitude();
        assert(n * pow2(136) == 0) by (nonlinear_arith)
            requires
                n == 0,
        ;
        assert(is_8192ths(0, n));
    } else {
        let mag = if n < 0 {
            -n
        } else {
            n
        };
        vstd::arithmetic::power2::lemma2_to64();
        let (m, k) = lemma_normal_form(mag, 136, mag);
        let bits = ((k + 1) * HIDDEN + (m - HIDDEN)) as u32;
        assert(bits as int / HIDDEN as int == k + 1);
        assert(bits as int % HIDDEN as int == m - HIDDEN);
        if n < 0 {
            let neg = (bits + SIGN) as u32;
            assert(neg as int % SIGN as int == bits);
            assert(neg as int % HIDDEN as int == m - HIDDEN);
            assert(n * pow2(136) == -(mag * pow2(136))) by (nonlinear_arith)
                requires
                    n == -mag,
            ;
            assert(is_8192ths(neg, n));
        } else {
            assert(is_8192ths(bits, n));
        }
    }
}

} // verus!
