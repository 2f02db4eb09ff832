//! Single-precision readings held by their bits (`f32::to_bits`): what the
//! bits stand for under IEEE 754, and exact comparisons with whole numbers.
//! Values are measured in units of 2^-149, the smallest step of an `f32`, so
//! every finite reading is a whole number of units.
use vstd::prelude::*;
use vstd::arithmetic::power2::{
    lemma_pow2_adds, lemma_pow2_pos, lemma_pow2_strictly_increases, lemma_pow2_unfold, pow2,
};

verus! {

/// The biased exponent field (bits 23..31).
pub open spec fn exp_field(b: u32) -> nat {
    ((b as nat) / 0x80_0000) % 256
}

/// The fraction field (bits 0..23).
pub open spec fn frac_field(b: u32) -> nat {
    (b as nat) % 0x80_0000
}

/// The sign bit is set.
pub open spec fn is_negative(b: u32) -> bool {
    b >= 0x8000_0000u32
}

/// The bits are a NaN.
pub open spec fn is_nan(b: u32) -> bool {
    exp_field(b) == 255 && frac_field(b) != 0
}

/// The bits are an infinity.
pub open spec fn is_infinite(b: u32) -> bool {
    exp_field(b) == 255 && frac_field(b) == 0
}

/// The significand: the fraction with the implicit leading one of a normal number.
pub open spec fn significand(b: u32) -> nat {
    if exp_field(b) == 0 {
        frac_field(b)
    } else {
        frac_field(b) + 0x80_0000
    }
}

/// The power of two that scales the significand, in units of 2^-149.
pub open spec fn scale_exp(b: u32) -> nat {
    if exp_field(b) == 0 {
        0
    } else {
        (exp_field(b) - 1) as nat
    }
}

/// The magnitude of a finite value, in units of 2^-149.
pub open spec fn magnitude(b: u32) -> nat {
    significand(b) * pow2(scale_exp(b))
}

/// The signed value of a finite reading, in units of 2^-149.
pub open spec fn value_units(b: u32) -> int {
    if is_negative(b) {
        -magnitude(b)
    } else {
        magnitude(b) as int
    }
}

/// One, in units of 2^-149.
pub open spec fn unit() -> nat {
    pow2(149)
}

/// 2^k as a `u128`.
pub fn pow2_u128(k: u32) -> (r: u128)
    requires
        k < 128,
    ensures
        r == pow2(k as nat),
{
    let mut r: u128 = 1;
    let mut i: u32 = 0;
    proof {
        lemma_pow2_pos(0);
        assert(pow2(0) == 1) by {
            vstd::arithmetic::power2::lemma2_to64();
        }
    }
    while i < k
        invariant
            i <= k,
            k < 128,
            r == pow2(i as nat),
        decreases k - i,
    {
        proof {
            lemma_pow2_unfold((i + 1) as nat);
            lemma_pow2_strictly_increases((i + 1) as nat, 128);
            vstd::arithmetic::power2::lemma2_to64();
            lemma_pow2_adds(64, 64);
            assert(pow2(128) == 0x1_0000_0000_0000_0000 * 0x1_0000_0000_0000_0000nat);
        }
        r = r * 2;
        i = i + 1;
    }
    r
}

/// The exponent and fraction fields of the bits.
pub fn fields(b: u32) -> (r: (u32, u32))
    ensures
        r.0 == exp_field(b),
        r.1 == frac_field(b),
        r.0 < 256,
        r.1 < 0x80_0000,
{
    ((b / 0x80_0000) % 256, b % 0x80_0000)
}

/// How a finite, non-negative reading compares with the whole number `t`:
/// -1 below, 0 equal, 1 above.
pub fn compare_with_int(b: u32, t: u64) -> (r: i8)
    requires
        !is_negative(b),
        exp_field(b) != 255,
        t <= 1024,
    ensures
        r == -1 <==> magnitude(b) < t * unit(),
        r == 0 <==> magnitude(b) == t * unit(),
        r == 1 <==> magnitude(b) > t * unit(),
{
    let (e, f) = fields(b);
    let m: u64 = if e == 0 {
        f as u64
    } else {
        f as u64 + 0x80_0000
    };
    assert(m == significand(b));
    if e >= 150 {
        proof {
            let s = scale_exp(b);
            if s > 149 {
                lemma_pow2_strictly_increases(149, s);
            }
            lemma_pow2_pos(149);
            assert(m * pow2(s) >= 0x80_0000 * pow2(149)) by (nonlinear_arith)
                requires
                    m >= 0x80_0000,
                    pow2(s) >= pow2(149),
            ;
            assert(t * pow2(149) < 0x80_0000 * pow2(149)) by (nonlinear_arith)
                requires
                    t <= 1024,
                    pow2(149) > 0,
            ;
        }
        return 1;
    }
    let d: u32 = if e == 0 {
        149
    } else {
        150 - e
    };
    let ghost s = scale_exp(b);
    assert(s + d == 149);
    proof {
        lemma_pow2_adds(d as nat, s);
        lemma_pow2_pos(s);
        lemma_pow2_pos(d as nat);
    }
    // magnitude = m * 2^s and t * unit = (t * 2^d) * 2^s.
    assert(t * unit() == (t * pow2(d as nat)) * pow2(s)) by (nonlinear_arith)
        requires
            pow2(149) == pow2(d as nat) * pow2(s),
    ;
    if d >= 35 {
        proof {
            lemma_pow2_strictly_increases(24, d as nat);
            vstd::arithmetic::power2::lemma2_to64();
        }
        if t == 0 {
            if m > 0 {
                assert(m * pow2(s) > 0) by (nonlinear_arith)
                    requires
                        m > 0,
                        pow2(s) > 0,
                ;
                return 1;
            } else {
                assert(m * pow2(s) == 0);
                assert(t * unit() == 0);
                return 0;
            }
        }
        assert(m < t * pow2(d as nat)) by (nonlinear_arith)
            requires
                m < 0x100_0000,
                pow2(24) == 0x100_0000,
                pow2(24) < pow2(d as nat),
                t >= 1,
        ;
        assert(m * pow2(s) < (t * pow2(d as nat)) * pow2(s)) by (nonlinear_arith)
            requires
                m < t * pow2(d as nat),
                pow2(s) > 0,
        ;
        return -1;
    }
    let p = pow2_u128(d);
    assert(p < 0x1_0000_0000_0000_0000) by {
        vstd::arithmetic::power2::lemma2_to64();
        lemma_pow2_strictly_increases(d as nat, 64);
    }
    assert(t * p < 0x400_0000_0000_0000_0000) by (nonlinear_arith)
        requires
            t <= 1024,
            p < 0x1_0000_0000_0000_0000,
    ;
    let td: u128 = t as u128 * p;
    if (m as u128) < td {
        assert(m * pow2(s) < td * pow2(s)) by (nonlinear_arith)
            requires
                m < td,
                pow2(s) > 0,
        ;
        -1
    } else if (m as u128) == td {
        0
    } else {
        assert(m * pow2(s) > td * pow2(s)) by (nonlinear_arith)
            requires
                m > td,
                pow2(s) > 0,
        ;
        1
    }
}


/// How many times `n` is halved (rounding down) before it fits in `p` bits.
pub open spec fn sig_shift(n: nat, p: nat) -> nat
    decreases n,
{
    if n < pow2(p) || n == 0 {
        0
    } else {
        1 + sig_shift(n / 2, p)
    }
}

/// `n / d` rounded to the nearest integer, halves to the even neighbour.
pub open spec fn div_round_even(n: nat, d: nat) -> nat {
    let q = n / d;
    let r = n % d;
    if 2 * r > d || (2 * r == d && q % 2 == 1) {
        q + 1
    } else {
        q
    }
}

/// `n` rounded to `p` significant bits, to nearest with halves to even: the
/// number a binary float with a `p`-bit significand holds for `n` (53 bits
/// for an `f64`, 24 for an `f32`).
pub open spec fn round_sig(n: nat, p: nat) -> nat {
    let k = sig_shift(n, p);
    div_round_even(n, pow2(k)) * pow2(k)
}

proof fn lemma_halve(n: nat, pk: nat)
    requires
        pk > 0,
    ensures
        (n / pk) / 2 == n / (pk * 2),
{
    vstd::arithmetic::div_mod::lemma_div_denominator(n as int, pk as int, 2);
}

/// `n` rounded to `p` significant bits (see `round_sig`).
pub fn round_sig_exec(n: u128, p: u32) -> (r: u128)
    requires
        n < 0x10_0000_0000_0000_0000_0000_0000,
        1 <= p <= 64,
    ensures
        r == round_sig(n as nat, p as nat),
        r <= 2 * n + 1,
{
    let limit = pow2_u128(p);
    let mut q: u128 = n;
    let mut pk: u128 = 1;
    let mut k: u32 = 0;
    proof {
        vstd::arithmetic::power2::lemma2_to64();
        lemma_pow2_strictly_increases(0, p as nat);
        lemma_pow2_adds(64, 36);
        lemma_pow2_adds(32, 4);
        lemma_pow2_unfold(1);
        lemma_pow2_unfold(2);
        lemma_pow2_unfold(3);
        lemma_pow2_unfold(4);
    }
    while q >= limit && q != 0
        invariant
            limit == pow2(p as nat),
            limit >= 2,
            1 <= p <= 64,
            n < 0x10_0000_0000_0000_0000_0000_0000,
            pow2(100) == 0x10_0000_0000_0000_0000_0000_0000,
            pk == pow2(k as nat),
            pk > 0,
            q == n / pk,
            k <= 100,
            pk <= n || pk == 1,
            sig_shift(n as nat, p as nat) == k + sig_shift(q as nat, p as nat),
        decreases q,
    {
        proof {
            lemma_halve(n as nat, pk as nat);
            lemma_pow2_unfold((k + 1) as nat);
            assert(q >= 2);
            assert(pk * 2 <= n) by (nonlinear_arith)
                requires
                    q == n / pk,
                    q >= 2,
                    pk > 0,
            {
                vstd::arithmetic::div_mod::lemma_fundamental_div_mod(n as int, pk as int);
            }
            if k + 1 > 100 {
                lemma_pow2_strictly_increases(100, (k + 1) as nat);
            }
        }
        q = q / 2;
        pk = pk * 2;
        k = k + 1;
    }
    proof {
        assert(sig_shift(q as nat, p as nat) == 0);
    }
    let qq = n / pk;
    let rr = n % pk;
    proof {
        vstd::arithmetic::div_mod::lemma_fundamental_div_mod(n as int, pk as int);
    }
    let rounded: u128 = if 2 * rr > pk || (2 * rr == pk && qq % 2 == 1) {
        qq + 1
    } else {
        qq
    };
    assert(rounded * pk <= n + pk) by (nonlinear_arith)
        requires
            rounded <= qq + 1,
            n == pk * qq + rr,
            rr >= 0,
    ;
    rounded * pk
}


/// `n / d` rounded to nearest, halves to even.
pub fn div_round_even_exec(n: u128, d: u128) -> (r: u128)
    requires
        d > 0,
        n < 0x1000_0000_0000_0000_0000_0000_0000_0000,
    ensures
        r == div_round_even(n as nat, d as nat),
{
    let q = n / d;
    let m = n % d;
    proof {
        vstd::arithmetic::div_mod::lemma_fundamental_div_mod(n as int, d as int);
        assert(q <= n) by (nonlinear_arith)
            requires
                n == d * q + m,
                d > 0,
                m >= 0,
                q >= 0,
        ;
    }
    if 2 * m > d || (2 * m == d && q % 2 == 1) {
        q + 1
    } else {
        q
    }
}

/// Rounding a quotient does not change when both sides are scaled alike.
pub proof fn lemma_div_round_even_scale(n: nat, d: nat, k: nat)
    requires
        d > 0,
        k > 0,
    ensures
        div_round_even(n * k, d * k) == div_round_even(n, d),
{
    let q = n / d;
    let r = n % d;
    vstd::arithmetic::div_mod::lemma_fundamental_div_mod(n as int, d as int);
    assert(n * k == q * (d * k) + r * k) by (nonlinear_arith)
        requires
            n == d * q + r,
    ;
    assert(r * k < d * k) by (nonlinear_arith)
        requires
            r < d,
            k > 0,
    ;
    assert(r * k >= 0) by (nonlinear_arith)
        requires
            r >= 0,
            k > 0,
    ;
    vstd::arithmetic::div_mod::lemma_fundamental_div_mod_converse(
        (n * k) as int,
        (d * k) as int,
        q as int,
        (r * k) as int,
    );
    assert(2 * (r * k) > d * k <==> 2 * r > d) by (nonlinear_arith)
        requires
            k > 0,
    ;
    assert(2 * (r * k) == d * k <==> 2 * r == d) by (nonlinear_arith)
        requires
            k > 0,
    ;
}


/// A number that orders non-NaN readings as their values do (IEEE 754 lays
/// out the magnitudes of one sign in the order of their bit patterns), with
/// zeros of either sign on one key. A NaN, which has no order, takes the key
/// of zero.
pub open spec fn order_key(b: u32) -> nat {
    if is_nan(b) {
        0x8000_0000
    } else if is_negative(b) {
        (0x1_0000_0000 - b as nat) as nat
    } else {
        0x8000_0000 + b as nat
    }
}

/// The order key of a reading.
pub fn order_key_exec(b: u32) -> (r: u64)
    ensures
        r == order_key(b),
{
    let (e, f) = fields(b);
    if e == 255 && f != 0 {
        0x8000_0000
    } else if b >= 0x8000_0000 {
        0x1_0000_0000 - b as u64
    } else {
        0x8000_0000 + b as u64
    }
}


/// The fields of a negative reading are those of the same bits without the sign.
pub proof fn lemma_sign_cleared(b: u32)
    requires
        b >= 0x8000_0000,
    ensures
        exp_field(b) == exp_field((b - 0x8000_0000) as u32),
        frac_field(b) == frac_field((b - 0x8000_0000) as u32),
        magnitude(b) == magnitude((b - 0x8000_0000) as u32),
{
    let a: u32 = (b - 0x8000_0000) as u32;
    assert((b / 0x80_0000) % 256 == (a / 0x80_0000) % 256) by (bit_vector)
        requires
            b >= 0x8000_0000,
            a == b - 0x8000_0000,
    ;
    assert(b % 0x80_0000 == a % 0x80_0000) by (bit_vector)
        requires
            b >= 0x8000_0000,
            a == b - 0x8000_0000,
    ;
}

/// Among finite non-negative readings, a larger bit pattern is a larger value.
pub proof fn lemma_magnitude_increasing(x: u32, y: u32)
    requires
        x < y < 0x7F80_0000,
    ensures
        magnitude(x) < magnitude(y),
{
    let ex = exp_field(x);
    let ey = exp_field(y);
    assert(ex == x / 0x80_0000 && ey == y / 0x80_0000);
    assert(ex <= ey) by {
        vstd::arithmetic::div_mod::lemma_div_is_ordered(x as int, y as int, 0x80_0000);
    }
    vstd::arithmetic::div_mod::lemma_fundamental_div_mod(x as int, 0x80_0000);
    vstd::arithmetic::div_mod::lemma_fundamental_div_mod(y as int, 0x80_0000);
    lemma_pow2_pos(scale_exp(x));
    lemma_pow2_pos(scale_exp(y));
    if ex == ey {
        assert(frac_field(x) < frac_field(y));
        assert(significand(x) * pow2(scale_exp(x)) < significand(y) * pow2(scale_exp(x))) by (nonlinear_arith)
            requires
                significand(x) < significand(y),
                pow2(scale_exp(x)) > 0,
        ;
    } else {
        // magnitude(x) < 2^23 * 2^ex <= 2^23 * 2^(ey - 1) <= magnitude(y).
        assert(magnitude(x) < 0x80_0000 * pow2(ex)) by {
            if ex == 0 {
                assert(pow2(0) == 1) by {
                    vstd::arithmetic::power2::lemma2_to64();
                }
            } else {
                lemma_pow2_unfold(ex);
                assert(significand(x) * pow2(scale_exp(x)) < 0x100_0000 * pow2(scale_exp(x))) by (nonlinear_arith)
                    requires
                        significand(x) < 0x100_0000,
                        pow2(scale_exp(x)) > 0,
                ;
            }
        }
        assert(pow2(ex) <= pow2(scale_exp(y))) by {
            if ex < scale_exp(y) {
                lemma_pow2_strictly_increases(ex, scale_exp(y));
            }
        }
        assert(0x80_0000 * pow2(ex) <= significand(y) * pow2(scale_exp(y))) by (nonlinear_arith)
            requires
                significand(y) >= 0x80_0000,
                pow2(ex) <= pow2(scale_exp(y)),
        ;
    }
}

} // verus!
