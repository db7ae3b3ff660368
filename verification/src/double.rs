//! Encoding of numbers as IEEE 754 binary64 bit patterns, computed with
//! integer arithmetic only.
//!
//! The AMF0 number type is an eight-byte big-endian double.  The keyframe
//! index stores byte positions (integers) and presentation times (milliseconds
//! divided by one thousand), so the doubles this library emits are exactly the
//! correctly rounded binary64 values of rationals p / q with q in {1, 1000}.
use vstd::prelude::*;

verus! {

use vstd::arithmetic::power2::pow2;
use vstd::arithmetic::power2::lemma_pow2_adds;
use vstd::arithmetic::power2::lemma_pow2_pos;
use vstd::arithmetic::power2::lemma_pow2_strictly_increases;
use vstd::arithmetic::power2::lemma2_to64;
use vstd::arithmetic::power2::lemma2_to64_rest;
use vstd::arithmetic::mul::lemma_mul_inequality;
use vstd::arithmetic::mul::lemma_mul_strict_inequality;
use vstd::arithmetic::div_mod::lemma_div_is_ordered;
use vstd::arithmetic::div_mod::lemma_div_multiples_vanish;
use vstd::arithmetic::div_mod::lemma_multiply_divide_lt;

/// n / d rounded to the nearest integer, ties going to the even neighbour.
pub open spec fn round_half_even(n: nat, d: nat) -> nat
    recommends
        d > 0,
{
    let q = n / d;
    let r = n % d;
    if 2 * r < d {
        q
    } else if 2 * r > d {
        q + 1
    } else if q % 2 == 0 {
        q
    } else {
        q + 1
    }
}

/// Whether 2^e <= p / q < 2^(e + 1), stated over naturals.
pub open spec fn is_binexp(p: nat, q: nat, e: int) -> bool {
    let ps = if e >= 0 {
        p
    } else {
        p * pow2((-e) as nat)
    };
    let qs = if e >= 0 {
        q * pow2(e as nat)
    } else {
        q
    };
    qs <= ps < 2 * qs
}

/// The binary exponent of p / q: the unique e with 2^e <= p / q < 2^(e + 1).
pub open spec fn binexp(p: nat, q: nat) -> int {
    choose|e: int| is_binexp(p, q, e)
}

/// Numerator and denominator of (p / q) * 2^(52 - e).
pub open spec fn mant_frac(p: nat, q: nat, e: int) -> (nat, nat) {
    if e <= 52 {
        (p * pow2((52 - e) as nat), q)
    } else {
        (p, q * pow2((e - 52) as nat))
    }
}

/// The mantissa of p / q scaled into [2^52, 2^53], correctly rounded.
pub open spec fn dbl_mant(p: nat, q: nat) -> nat {
    let (n, d) = mant_frac(p, q, binexp(p, q));
    round_half_even(n, d)
}

/// The IEEE 754 binary64 bit pattern of the double nearest to
/// (-1)^sign * p / q, for p / q in the normal range.
pub open spec fn double_bits(sign: bool, p: nat, q: nat) -> u64 {
    if p == 0 {
        0u64
    } else {
        let e = binexp(p, q);
        let m = dbl_mant(p, q);
        let e2 = if m == pow2(53) {
            e + 1
        } else {
            e
        };
        let m2: nat = if m == pow2(53) {
            pow2(52)
        } else {
            m
        };
        ((if sign {
            0x8000_0000_0000_0000int
        } else {
            0int
        }) + (e2 + 1023) * pow2(52) + (m2 - pow2(52))) as u64
    }
}

/// Bit pattern of the double nearest to ms / 1000 (a time in seconds).
pub open spec fn double_bits_of_ms(ms: nat) -> u64 {
    double_bits(false, ms, 1000)
}

/// Bit pattern of the double nearest to the integer v (a byte position).
pub open spec fn double_bits_of_int(v: int) -> u64 {
    if v >= 0 {
        double_bits(false, v as nat, 1)
    } else {
        double_bits(true, (-v) as nat, 1)
    }
}

/// The eight big-endian bytes of a 64-bit pattern.
pub open spec fn be64_bytes(x: u64) -> Seq<u8> {
    seq![
        (x >> 56) as u8,
        (x >> 48) as u8,
        (x >> 40) as u8,
        (x >> 32) as u8,
        (x >> 24) as u8,
        (x >> 16) as u8,
        (x >> 8) as u8,
        x as u8,
    ]
}

/// Appends the eight big-endian bytes of x.
pub fn push_be64(out: &mut Vec<u8>, x: u64)
    ensures
        final(out)@ == old(out)@ + be64_bytes(x),
{
    out.push(#[verifier::truncate] ((x >> 56) as u8));
    out.push(#[verifier::truncate] ((x >> 48) as u8));
    out.push(#[verifier::truncate] ((x >> 40) as u8));
    out.push(#[verifier::truncate] ((x >> 32) as u8));
    out.push(#[verifier::truncate] ((x >> 24) as u8));
    out.push(#[verifier::truncate] ((x >> 16) as u8));
    out.push(#[verifier::truncate] ((x >> 8) as u8));
    out.push(#[verifier::truncate] (x as u8));
    proof {
        assert(final(out)@ =~= old(out)@ + be64_bytes(x));
    }
}

/// Of two exponents that both bracket p / q, neither is larger.
proof fn lemma_binexp_le(p: nat, q: nat, e1: int, e2: int)
    requires
        p >= 1,
        q >= 1,
        is_binexp(p, q, e1),
        is_binexp(p, q, e2),
    ensures
        e2 <= e1,
{
    if e2 <= e1 {
        return;
    }
    lemma2_to64();
    if e1 >= 0 {
        // p < 2 * (q * 2^e1) == q * 2^(e1 + 1) <= q * 2^e2 <= p
        let x1 = pow2(e1 as nat);
        let xm = pow2((e1 + 1) as nat);
        let x2 = pow2(e2 as nat);
        assert(xm == 2 * x1) by {
            lemma_pow2_adds(1, e1 as nat);
        }
        if e1 + 1 < e2 {
            lemma_pow2_strictly_increases((e1 + 1) as nat, e2 as nat);
        }
        assert(xm <= x2);
        lemma_mul_inequality(xm as int, x2 as int, q as int);
        assert(xm * q == 2 * (q * x1)) by (nonlinear_arith)
            requires
                xm == 2 * x1,
        ;
        assert(false);
    } else if e2 <= 0 {
        // With a = -e1 and b = -e2 (a > b >= 0):
        // 2 * q <= (p * 2^b) * 2^(a - b) == p * 2^a < 2 * q.
        let a = (-e1) as nat;
        let b = (-e2) as nat;
        let c = (a - b) as nat;
        assert(pow2(a) == pow2(b) * pow2(c)) by {
            lemma_pow2_adds(b, c);
        }
        assert(q <= p * pow2(b)) by (nonlinear_arith)
            requires
                pow2(0) == 1,
                b == 0 ==> q * pow2(b) <= p,
                b != 0 ==> q <= p * pow2(b),
        ;
        lemma_mul_inequality(q as int, (p * pow2(b)) as int, pow2(c) as int);
        if 1 < c {
            lemma_pow2_strictly_increases(1, c);
        }
        assert(2 <= pow2(c));
        lemma_mul_inequality(2, pow2(c) as int, q as int);
        assert((p * pow2(b)) * pow2(c) == p * pow2(a)) by (nonlinear_arith)
            requires
                pow2(a) == pow2(b) * pow2(c),
        ;
        assert(false);
    } else {
        // e1 <= -1 and e2 >= 1: with a = -e1,
        // 4 * q <= q * 2^(e2 + a) == (q * 2^e2) * 2^a <= p * 2^a < 2 * q.
        let a = (-e1) as nat;
        let s = (e2 as nat + a) as nat;
        assert(q * pow2(e2 as nat) <= p);
        assert(p * pow2(a) < 2 * q);
        lemma_mul_inequality((q * pow2(e2 as nat)) as int, p as int, pow2(a) as int);
        lemma_pow2_adds(e2 as nat, a);
        assert((q * pow2(e2 as nat)) * pow2(a) == q * pow2(s)) by (nonlinear_arith)
            requires
                pow2(s) == pow2(e2 as nat) * pow2(a),
        ;
        if 2 < s {
            lemma_pow2_strictly_increases(2, s);
        }
        assert(4 <= pow2(s));
        lemma_mul_inequality(4, pow2(s) as int, q as int);
        assert(false);
    }
}

/// The exponent that brackets p / q is unique.
proof fn lemma_binexp_unique(p: nat, q: nat, e1: int, e2: int)
    requires
        p >= 1,
        q >= 1,
        is_binexp(p, q, e1),
        is_binexp(p, q, e2),
    ensures
        e1 == e2,
{
    lemma_binexp_le(p, q, e1, e2);
    lemma_binexp_le(p, q, e2, e1);
}

/// The fraction that yields the mantissa lies in [2^52, 2^53).
proof fn lemma_mant_frac_bounds(p: nat, q: nat, e: int)
    requires
        p >= 1,
        q >= 1,
        is_binexp(p, q, e),
    ensures
        ({
            let (n, d) = mant_frac(p, q, e);
            d >= 1 && d * pow2(52) <= n && n < d * pow2(53)
        }),
{
    lemma2_to64();
    let (n, d) = mant_frac(p, q, e);
    lemma_pow2_pos(52);
    lemma_pow2_pos(53);
    if e <= 52 {
        // n == p * 2^(52 - e), d == q
        let s = (52 - e) as nat;
        lemma_pow2_pos(s);
        if e >= 0 {
            // q * 2^e <= p < 2 * q * 2^e; multiply through by 2^(52 - e)
            lemma_pow2_adds(e as nat, s);
            lemma_mul_inequality((q * pow2(e as nat)) as int, p as int, pow2(s) as int);
            assert((q * pow2(e as nat)) * pow2(s) == q * pow2(52)) by (nonlinear_arith)
                requires
                    pow2(e as nat) * pow2(s) == pow2(52),
            ;
            lemma_mul_strict_inequality(p as int, (2 * (q * pow2(e as nat))) as int, pow2(s) as int);
            assert((2 * (q * pow2(e as nat))) * pow2(s) == q * (2 * pow2(52))) by (nonlinear_arith)
                requires
                    pow2(e as nat) * pow2(s) == pow2(52),
            ;
            assert(2 * pow2(52) == pow2(53)) by {
                lemma_pow2_adds(1, 52);
            }
        } else {
            // q <= p * 2^(-e) < 2 * q; multiply through by 2^52
            let a = (-e) as nat;
            lemma_pow2_adds(a, 52);
            lemma_mul_inequality(q as int, (p * pow2(a)) as int, pow2(52) as int);
            assert((p * pow2(a)) * pow2(52) == p * pow2(s)) by (nonlinear_arith)
                requires
                    pow2(a) * pow2(52) == pow2(s),
            ;
            lemma_mul_strict_inequality((p * pow2(a)) as int, (2 * q) as int, pow2(52) as int);
            assert(2 * pow2(52) == pow2(53)) by {
                lemma_pow2_adds(1, 52);
            }
            assert((2 * q) * pow2(52) == q * pow2(53)) by (nonlinear_arith)
                requires
                    2 * pow2(52) == pow2(53),
            ;
        }
    } else {
        // n == p, d == q * 2^(e - 52)
        let s = (e - 52) as nat;
        lemma_pow2_pos(s);
        assert(q * pow2(s) >= 1) by (nonlinear_arith)
            requires
                q >= 1,
                pow2(s) >= 1,
        ;
        lemma_pow2_adds(s, 52);
        assert((q * pow2(s)) * pow2(52) == q * pow2(e as nat)) by (nonlinear_arith)
            requires
                pow2(s) * pow2(52) == pow2(e as nat),
        ;
        assert(pow2(s) * pow2(53) == 2 * pow2(e as nat)) by {
            lemma_pow2_adds(s, 53);
            lemma_pow2_adds(1, e as nat);
            lemma_pow2_adds(1, 52);
            assert(pow2(s) * pow2(53) == pow2((e + 1) as nat)) by (nonlinear_arith)
                requires
                    pow2(s) * pow2(53) == pow2((s + 53) as nat),
                    pow2((s + 53) as nat) == pow2((e + 1) as nat),
            ;
        }
        assert((q * pow2(s)) * pow2(53) == 2 * (q * pow2(e as nat))) by (nonlinear_arith)
            requires
                pow2(s) * pow2(53) == 2 * pow2(e as nat),
        ;
    }
}

/// 2^k as a u128.
fn pow2_u128(k: u64) -> (r: u128)
    requires
        k <= 126,
    ensures
        r == pow2(k as nat),
{
    proof {
        lemma2_to64();
        lemma2_to64_rest();
        lemma_pow2_adds(64, 63);
    }
    let mut i: u64 = 0;
    let mut r: u128 = 1;
    while i < k
        invariant
            i <= k <= 126,
            r == pow2(i as nat),
            pow2(127) == 0x8000_0000_0000_0000_0000_0000_0000_0000,
        decreases k - i,
    {
        proof {
            if ((i + 1) as nat) < 127 {
                lemma_pow2_strictly_increases((i + 1) as nat, 127);
            }
            assert(pow2((i + 1) as nat) == 2 * pow2(i as nat)) by {
                lemma_pow2_adds(1, i as nat);
                lemma2_to64();
            }
        }
        r = 2 * r;
        i = i + 1;
    }
    r
}

/// The binary64 bit pattern of (-1)^sign * p / q, computed with integer
/// arithmetic: the exponent is found by doubling, the mantissa by one exact
/// division rounded to nearest with ties to even.
pub fn ieee_double_bits(sign: bool, p: u64, q: u64) -> (bits: u64)
    requires
        1 <= q <= 1000,
    ensures
        bits == double_bits(sign, p as nat, q as nat),
{
    proof {
        lemma2_to64();
        lemma2_to64_rest();
    }
    if p == 0 {
        return 0;
    }
    let pp: u128 = p as u128;
    let qq: u128 = q as u128;
    let mut e: i32 = 0;
    if pp >= qq {
        proof {
            assert((q as nat) * pow2(0) == q as nat) by (nonlinear_arith)
                requires
                    pow2(0) == 1,
            ;
        }
        let mut hi: u128 = qq;
        while pp >= 2 * hi
            invariant
                pp == p as nat,
                qq == q as nat,
                1 <= q <= 1000,
                p >= 1,
                0 <= e <= 63,
                hi == (q as nat) * pow2(e as nat),
                hi <= pp,
            decreases pp - hi,
        {
            proof {
                lemma_pow2_pos(e as nat);
                assert(pow2((e + 1) as nat) == 2 * pow2(e as nat)) by {
                    lemma_pow2_adds(1, e as nat);
                    lemma2_to64();
                }
                assert((q as nat) * pow2((e + 1) as nat) == 2 * hi) by (nonlinear_arith)
                    requires
                        pow2((e + 1) as nat) == 2 * pow2(e as nat),
                        hi == (q as nat) * pow2(e as nat),
                ;
                // e stays below 63: hi >= 2^e, so at e == 63 the loop
                // condition would put 2^64 <= pp
                assert(pow2(e as nat) <= hi) by (nonlinear_arith)
                    requires
                        q >= 1,
                        hi == (q as nat) * pow2(e as nat),
                        pow2(e as nat) >= 0,
                ;
                if e == 63 {
                    lemma2_to64_rest();
                    assert(false);
                }
            }
            hi = 2 * hi;
            e = e + 1;
        }
        proof {
            assert(is_binexp(p as nat, q as nat, e as int));
        }
    } else {
        proof {
            assert((p as nat) * pow2(0) == p as nat) by (nonlinear_arith)
                requires
                    pow2(0) == 1,
            ;
        }
        let mut sp: u128 = pp;
        while sp < qq
            invariant
                pp == p as nat,
                qq == q as nat,
                1 <= q <= 1000,
                p >= 1,
                -10 <= e <= 0,
                sp == (p as nat) * pow2((-e) as nat),
                sp < 2 * qq,
                sp >= 1,
            decreases 2 * qq - sp,
        {
            proof {
                lemma_pow2_pos((-e) as nat);
                assert(pow2((-(e - 1)) as nat) == 2 * pow2((-e) as nat)) by {
                    lemma_pow2_adds(1, (-e) as nat);
                    lemma2_to64();
                }
                assert((p as nat) * pow2((-(e - 1)) as nat) == 2 * sp) by (nonlinear_arith)
                    requires
                        pow2((-(e - 1)) as nat) == 2 * pow2((-e) as nat),
                        sp == (p as nat) * pow2((-e) as nat),
                ;
                // e stays above -10: sp < q <= 1000 and sp >= 2^(-e)
                assert(pow2((-e) as nat) <= (p as nat) * pow2((-e) as nat)) by (nonlinear_arith)
                    requires
                        p >= 1,
                        pow2((-e) as nat) >= 0,
                ;
                if e - 1 < -10 {
                    lemma_pow2_strictly_increases(9, (-e) as nat);
                    lemma2_to64();
                    assert(false);
                }
            }
            sp = 2 * sp;
            e = e - 1;
        }
        proof {
            assert(is_binexp(p as nat, q as nat, e as int));
        }
    }
    // Scale p / q by 2^(52 - e) and round the quotient.
    let (nn, dd): (u128, u128) = if e <= 52 {
        let sh = pow2_u128((52 - e) as u64);
        proof {
            lemma_pow2_strictly_increases((52 - e) as nat, 63);
            lemma2_to64_rest();
            assert((p as nat) * pow2((52 - e) as nat) < 0x8000_0000_0000_0000_0000_0000_0000_0000)
                by (nonlinear_arith)
                requires
                    (p as nat) < 0x1_0000_0000_0000_0000,
                    pow2((52 - e) as nat) < 0x8000_0000_0000_0000,
            ;
        }
        (pp * sh, qq)
    } else {
        let sh = pow2_u128((e - 52) as u64);
        proof {
            lemma_pow2_strictly_increases((e - 52) as nat, 12);
            lemma2_to64();
            assert((q as nat) * pow2((e - 52) as nat) < 0x1000 * 1001) by (nonlinear_arith)
                requires
                    (q as nat) <= 1000,
                    pow2((e - 52) as nat) < 0x1000,
            ;
        }
        (pp, qq * sh)
    };
    proof {
        lemma_mant_frac_bounds(p as nat, q as nat, e as int);
        assert((nn as nat, dd as nat) == mant_frac(p as nat, q as nat, e as int));
    }
    let f: u128 = nn / dd;
    let r: u128 = nn % dd;
    let mant: u128 = if 2 * r < dd {
        f
    } else if 2 * r > dd {
        f + 1
    } else if f % 2 == 0 {
        f
    } else {
        f + 1
    };
    proof {
        lemma2_to64();
        lemma2_to64_rest();
        assert(pow2(52) == 0x10_0000_0000_0000 && pow2(53) == 0x20_0000_0000_0000) by {
            lemma_pow2_adds(52, 1);
        }
        // 2^52 <= f and f < 2^53, so mant <= 2^53
        lemma_div_is_ordered((dd * pow2(52)) as int, nn as int, dd as int);
        lemma_div_multiples_vanish(pow2(52) as int, dd as int);
        lemma_multiply_divide_lt(nn as int, dd as int, pow2(53) as int);
        assert(mant == round_half_even(nn as nat, dd as nat));
        assert(mant == dbl_mant(p as nat, q as nat)) by {
            let es = binexp(p as nat, q as nat);
            assert(is_binexp(p as nat, q as nat, es));
            lemma_binexp_unique(p as nat, q as nat, es, e as int);
        }
    }
    let (bexp, frac): (u64, u64) = if mant == 0x20_0000_0000_0000 {
        (((e + 1024) as u64), 0u64)
    } else {
        ((e + 1023) as u64, (mant - 0x10_0000_0000_0000) as u64)
    };
    let bits: u64 = (if sign {
        0x8000_0000_0000_0000u64
    } else {
        0u64
    }) + bexp * 0x10_0000_0000_0000u64 + frac;
    proof {
        let pn = p as nat;
        let qn = q as nat;
        assert(binexp(pn, qn) == e as int) by {
            assert(is_binexp(pn, qn, e as int));
            lemma_binexp_unique(pn, qn, binexp(pn, qn), e as int);
        }
        let m = dbl_mant(pn, qn);
        let e2 = if m == pow2(53) {
            e as int + 1
        } else {
            e as int
        };
        assert(bexp == e2 + 1023);
        assert((e2 + 1023) * pow2(52) == (bexp as int) * 0x10_0000_0000_0000) by (nonlinear_arith)
            requires
                pow2(52) == 0x10_0000_0000_0000,
                bexp == e2 + 1023,
        ;
        assert(bits == double_bits(sign, pn, qn));
    }
    bits
}

/// Bit pattern of the time ms / 1000, in seconds.
pub fn ms_double_bits(ms: u32) -> (r: u64)
    ensures
        r == double_bits_of_ms(ms as nat),
{
    ieee_double_bits(false, ms as u64, 1000)
}

/// Bit pattern of the integer byte position v.
pub fn int_double_bits(v: i64) -> (r: u64)
    requires
        v > i64::MIN,
    ensures
        r == double_bits_of_int(v as int),
{
    if v >= 0 {
        ieee_double_bits(false, v as u64, 1)
    } else {
        ieee_double_bits(true, (-v) as u64, 1)
    }
}

} // verus!
