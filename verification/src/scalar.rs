//! Single-precision numbers as bit patterns: the few facts about the IEEE-754 binary32
//! encoding that the engine relies on.

use vstd::prelude::*;
use vstd::arithmetic::power2::{lemma_pow2_pos, lemma_pow2_unfold, lemma2_to64, pow2};
use crate::tensor::is_zero;

verus! {

/// The position of the highest set bit of `n`, zero for `n < 2`.
pub open spec fn floor_log2(n: nat) -> nat
    decreases n,
{
    if n < 2 {
        0
    } else {
        1 + floor_log2(n / 2)
    }
}

/// The bit pattern of the single-precision number nearest to the count `n`, a tie going
/// to the neighbour with an even significand: zero for zero; else the biased exponent
/// `127 + e` in the bits from 23 up, where `2^e <= n < 2^(e + 1)`, and below them the
/// 23 bits that follow the leading bit of `n`, rounded where `n` has more.
pub open spec fn count_bits(n: nat) -> int {
    if n == 0 {
        0
    } else {
        let e = floor_log2(n);
        if e <= 23 {
            (127 + e) * 0x80_0000 + (n - pow2(e)) * pow2((23 - e) as nat)
        } else {
            let q = (e - 23) as nat;
            let kept = n / pow2(q);
            let dropped = n % pow2(q);
            let half = pow2((q - 1) as nat);
            let up: int = if dropped > half || (dropped == half && kept % 2 == 1) {
                1
            } else {
                0
            };
            (127 + e) * 0x80_0000 + (kept - 0x80_0000) + up
        }
    }
}

/// The bits below the sign bit: the size of the number.
pub open spec fn magnitude(bits: u32) -> int {
    if bits >= 0x8000_0000 {
        bits - 0x8000_0000
    } else {
        bits as int
    }
}

/// Whether a bit pattern is not a number: its exponent bits are all set and its
/// significand bits are not all clear.
pub open spec fn is_nan(bits: u32) -> bool {
    magnitude(bits) > 0x7F80_0000
}

/// Where a number stands in the order of numbers: numbers are ordered as their
/// magnitudes are, the negative ones in reverse and before the others; both zeros stand
/// at zero.
pub open spec fn key(bits: u32) -> int {
    if bits >= 0x8000_0000 {
        -magnitude(bits)
    } else {
        magnitude(bits)
    }
}

/// Whether two numbers compare equal: they are the same number, or both are zeros;
/// what is not a number equals nothing.
pub open spec fn equal(a: u32, b: u32) -> bool {
    !is_nan(a) && !is_nan(b) && (a == b || (is_zero(a) && is_zero(b)))
}

/// Whether the number `a` is less than the number `b`; what is not a number is neither
/// less nor greater than anything.
pub open spec fn less(a: u32, b: u32) -> bool {
    !is_nan(a) && !is_nan(b) && key(a) < key(b)
}

/// Whether a bit pattern is not a number.
pub fn not_a_number(bits: u32) -> (r: bool)
    ensures
        r == is_nan(bits),
{
    let size: u32 = if bits >= 0x8000_0000 {
        bits - 0x8000_0000
    } else {
        bits
    };
    size > 0x7F80_0000
}

/// Whether two numbers compare equal.
pub fn same_number(a: u32, b: u32) -> (r: bool)
    ensures
        r == equal(a, b),
{
    let a_zero: bool = a == 0 || a == 0x8000_0000;
    let b_zero: bool = b == 0 || b == 0x8000_0000;
    !not_a_number(a) && !not_a_number(b) && (a == b || (a_zero && b_zero))
}

/// Whether the number `a` is less than the number `b`.
pub fn less_than(a: u32, b: u32) -> (r: bool)
    ensures
        r == less(a, b),
{
    if not_a_number(a) || not_a_number(b) {
        return false;
    }
    let a_negative: bool = a >= 0x8000_0000;
    let b_negative: bool = b >= 0x8000_0000;
    let a_size: u32 = if a_negative {
        a - 0x8000_0000
    } else {
        a
    };
    let b_size: u32 = if b_negative {
        b - 0x8000_0000
    } else {
        b
    };
    if a_negative && b_negative {
        a_size > b_size
    } else if a_negative {
        a_size > 0 || b_size > 0
    } else if b_negative {
        false
    } else {
        a_size < b_size
    }
}

proof fn lemma_floor_log2_step(n: nat, p: nat)
    requires
        p >= 1,
        n / p >= 2,
    ensures
        floor_log2(n / p) == 1 + floor_log2(n / (2 * p)),
{
    vstd::arithmetic::div_mod::lemma_div_denominator(n as int, p as int, 2);
    assert(p * 2 == 2 * p) by (nonlinear_arith);
}

proof fn lemma_quotient_range(n: nat, d: nat, lo: nat)
    requires
        d >= 1,
        lo * d <= n < 2 * lo * d,
    ensures
        lo <= n / d < 2 * lo,
{
    vstd::arithmetic::div_mod::lemma_fundamental_div_mod(n as int, d as int);
    let q = n / d;
    let r = n % d;
    assert(0 <= r < d) by {
        vstd::arithmetic::div_mod::lemma_mod_pos_bound(n as int, d as int);
    }
    assert(n == d * q + r);
    if q < lo {
        assert(d * q + d <= d * lo) by (nonlinear_arith)
            requires
                q + 1 <= lo,
                d >= 1,
        ;
        assert(d * lo == lo * d) by (nonlinear_arith);
    }
    if q >= 2 * lo {
        assert(d * q >= d * (2 * lo)) by (nonlinear_arith)
            requires
                q >= 2 * lo,
                d >= 1,
        ;
        assert(d * (2 * lo) == 2 * lo * d) by (nonlinear_arith);
    }
}

/// The bit pattern of the single-precision number nearest to the count `n`.
pub fn scalar_count(n: usize) -> (r: u32)
    ensures
        r == count_bits(n as nat),
{
    if n == 0 {
        return 0;
    }
    let wide: u64 = n as u64;
    let mut e: u32 = 0;
    let mut p: u64 = 1;
    proof {
        lemma2_to64();
        assert(wide / 1 == wide);
    }
    while wide / 2 >= p
        invariant
            wide == n,
            n >= 1,
            p == pow2(e as nat),
            1 <= p <= wide,
            e <= 63,
            floor_log2(n as nat) == e + floor_log2((n as nat) / (p as nat)),
        decreases wide - p,
    {
        proof {
            lemma_pow2_unfold((e + 1) as nat);
            assert(wide >= 2 * p);
            assert((n as nat) / (p as nat) >= 2) by {
                lemma_quotient_range_low(n as nat, p as nat);
            }
            lemma_floor_log2_step(n as nat, p as nat);
            if e == 63 {
                lemma2_to64_rest_local();
                assert(false);
            }
        }
        p = p * 2;
        e = e + 1;
    }
    proof {
        // p <= n < 2p, so the quotient is one and its logarithm zero
        assert(p <= wide);
        assert(wide < 2 * p);
        assert(1 * (p as nat) == p);
        assert(2 * 1 * (p as nat) == 2 * p);
        lemma_quotient_range(n as nat, p as nat, 1);
        assert(floor_log2(n as nat) == e);
        lemma2_to64();
    }
    let exponent: u64 = (127 + e) as u64;
    if e <= 23 {
        let mut scale: u64 = 1;
        let mut i: u32 = e;
        while i < 23
            invariant
                e <= i <= 23,
                scale == pow2((i - e) as nat),
                scale <= 0x80_0000,
                scale * pow2(e as nat) == pow2(i as nat),
                pow2(e as nat) >= 1,
            decreases 23 - i,
        {
            proof {
                lemma_pow2_unfold((i + 1 - e) as nat);
                lemma_pow2_unfold((i + 1) as nat);
                lemma2_to64();
                lemma_pow2_monotone((i + 1) as nat, 23);
                assert((2 * scale) * pow2(e as nat) == 2 * (scale * pow2(e as nat)))
                    by (nonlinear_arith);
                assert(2 * scale <= 0x80_0000) by (nonlinear_arith)
                    requires
                        (2 * scale) * pow2(e as nat) <= 0x80_0000,
                        pow2(e as nat) >= 1,
                        scale >= 0,
                ;
            }
            scale = scale * 2;
            i = i + 1;
        }
        proof {
            lemma2_to64();
            // n < 2p and scale * p == 2^23, so the scaled remainder stays below 2^23
            assert((wide - p) * scale < 0x80_0000) by (nonlinear_arith)
                requires
                    wide - p < p,
                    scale * p == 0x80_0000,
                    scale >= 1,
                    p >= 1,
            ;
        }
        let mantissa: u64 = (wide - p) * scale;
        let bits: u64 = exponent * 0x80_0000 + mantissa;
        bits as u32
    } else {
        let mut drop: u64 = 1;
        let mut i: u32 = 23;
        while i < e
            invariant
                23 <= i <= e,
                e <= 63,
                drop == pow2((i - 23) as nat),
                drop * 0x80_0000 == pow2(i as nat),
                pow2(e as nat) <= u64::MAX,
            decreases e - i,
        {
            proof {
                lemma_pow2_unfold((i + 1 - 23) as nat);
                lemma_pow2_unfold((i + 1) as nat);
                lemma_pow2_monotone((i + 1) as nat, e as nat);
                assert((2 * drop) * 0x80_0000 == 2 * (drop * 0x80_0000)) by (nonlinear_arith);
            }
            drop = drop * 2;
            i = i + 1;
        }
        proof {
            lemma_pow2_pos((e - 23) as nat);
            assert(0x80_0000 * drop == p) by (nonlinear_arith)
                requires
                    drop * 0x80_0000 == p,
            ;
            assert(p <= wide && wide < 2 * p);
            assert(0x80_0000 * (drop as nat) == p);
            assert(2 * 0x80_0000 * (drop as nat) == 2 * p) by (nonlinear_arith)
                requires
                    0x80_0000 * (drop as nat) == p,
            ;
            lemma_quotient_range(n as nat, drop as nat, 0x80_0000);
            lemma_pow2_unfold((e - 23) as nat);
        }
        let kept: u64 = wide / drop;
        let dropped: u64 = wide % drop;
        let half: u64 = drop / 2;
        let up: u64 = if dropped > half || (dropped == half && kept % 2 == 1) {
            1
        } else {
            0
        };
        let bits: u64 = exponent * 0x80_0000 + (kept - 0x80_0000) + up;
        bits as u32
    }
}

proof fn lemma_quotient_range_low(n: nat, p: nat)
    requires
        p >= 1,
        n >= 2 * p,
    ensures
        n / p >= 2,
{
    vstd::arithmetic::div_mod::lemma_fundamental_div_mod(n as int, p as int);
    vstd::arithmetic::div_mod::lemma_mod_pos_bound(n as int, p as int);
    let q = n / p;
    if q < 2 {
        assert(p * q <= p) by (nonlinear_arith)
            requires
                q <= 1,
                q >= 0,
                p >= 1,
        ;
    }
}

proof fn lemma2_to64_rest_local()
    ensures
        pow2(63) == 0x8000000000000000,
        pow2(64) == 0x10000000000000000,
{
    vstd::arithmetic::power2::lemma2_to64_rest();
}

proof fn lemma_pow2_monotone(a: nat, b: nat)
    requires
        a <= b,
    ensures
        pow2(a) <= pow2(b),
{
    if a < b {
        vstd::arithmetic::power2::lemma_pow2_strictly_increases(a, b);
    }
}

} // verus!
