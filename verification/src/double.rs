//! Double-precision numbers as bit patterns, and the integers among them.

use vstd::arithmetic::power2::{
    lemma2_to64, lemma2_to64_rest, lemma_pow2_adds, lemma_pow2_pos, lemma_pow2_strictly_increases,
    lemma_pow2_unfold, pow2,
};
use vstd::prelude::*;

verus! {

/// The sign bit.
pub const SIGN_BIT: u64 = 9223372036854775808;

/// Two to the number of fraction bits.
pub const FRACTION_LIMIT: u64 = 4503599627370496;

/// Whether the sign bit is set.
pub open spec fn is_negative(bits: u64) -> bool {
    bits >= SIGN_BIT
}

/// The biased exponent.
pub open spec fn exponent(bits: u64) -> nat {
    (bits as nat / FRACTION_LIMIT as nat) % 2048
}

/// The fraction bits.
pub open spec fn fraction(bits: u64) -> nat {
    bits as nat % FRACTION_LIMIT as nat
}

/// The significand: the fraction, with the leading one of a normal number.
pub open spec fn significand(bits: u64) -> nat {
    if exponent(bits) == 0 {
        fraction(bits)
    } else {
        FRACTION_LIMIT as nat + fraction(bits)
    }
}

/// The exponent over 2^-1075 that the significand is multiplied with.
pub open spec fn scale(bits: u64) -> nat {
    if exponent(bits) == 0 {
        1
    } else {
        exponent(bits)
    }
}

/// Whether the number is finite and equals the integer.
pub open spec fn real_is(bits: u64, n: int) -> bool {
    exponent(bits) < 2047 && significand(bits) * pow2(scale(bits)) == (if is_negative(bits) {
        -n
    } else {
        n
    }) * pow2(1075)
}

/// The 64-bit integer that the number equals, if there is one.
pub open spec fn real_integer(bits: u64) -> Option<i64> {
    if exists|n: i64| real_is(bits, n as int) {
        Some(choose|n: i64| real_is(bits, n as int))
    } else {
        None
    }
}

/// The position of the highest bit of a positive number.
pub open spec fn top_bit(m: nat) -> nat
    decreases m,
{
    if m < 2 {
        0
    } else {
        1 + top_bit(m / 2)
    }
}

/// `m / 2^d`, rounded to the nearest integer, and to the even one of two.
pub open spec fn rounded(m: nat, d: nat) -> nat {
    let q = m / pow2(d);
    let r = m % pow2(d);
    if 2 * r > pow2(d) || (2 * r == pow2(d) && q % 2 == 1) {
        q + 1
    } else {
        q
    }
}

/// The distance of an integer from zero.
pub open spec fn magnitude(v: i64) -> nat {
    if v < 0 {
        (-v) as nat
    } else {
        v as nat
    }
}

/// The 53-bit significand nearest to a positive number, which may have carried
/// into the next power of two.
pub open spec fn nearest_significand(m: nat) -> nat {
    if top_bit(m) <= 52 {
        m * pow2((52 - top_bit(m)) as nat)
    } else {
        rounded(m, (top_bit(m) - 52) as nat)
    }
}

/// The bit pattern of the double nearest to an integer.
pub open spec fn real_bits(v: i64) -> nat {
    if v == 0 {
        0
    } else {
        (if v < 0 {
            SIGN_BIT as nat
        } else {
            0
        }) + (top_bit(magnitude(v)) + 1022) * (FRACTION_LIMIT as nat) + nearest_significand(
            magnitude(v),
        )
    }
}

/// A common positive factor can be dropped.
proof fn lemma_cancel(a: int, b: int, p: int)
    by (nonlinear_arith)
    requires
        p > 0,
    ensures
        a * p == b * p <==> a == b,
{
}

/// No number equals two integers.
pub proof fn lemma_real_integer_unique(bits: u64, a: int, b: int)
    requires
        real_is(bits, a),
        real_is(bits, b),
    ensures
        a == b,
{
    lemma_pow2_pos(1075);
    if is_negative(bits) {
        lemma_cancel(-a, -b, pow2(1075) as int);
    } else {
        lemma_cancel(a, b, pow2(1075) as int);
    }
}

/// A number with the given integer value.
proof fn lemma_real_integer_some(bits: u64, n: i64)
    requires
        real_is(bits, n as int),
    ensures
        real_integer(bits) == Some(n),
{
    let chosen = choose|n: i64| real_is(bits, n as int);
    lemma_real_integer_unique(bits, chosen as int, n as int);
}

/// Below 2^1023 over the common scale, only zero is an integer.
proof fn lemma_below_one(sig: nat, scale: nat, n: int)
    requires
        sig < 9007199254740992,
        scale < 1023,
        sig * pow2(scale) == n * pow2(1075),
    ensures
        sig == 0 && n == 0,
{
    lemma2_to64_rest();
    assert(pow2(53) == 9007199254740992) by {
        lemma2_to64_rest();
    }
    lemma_pow2_pos(scale);
    lemma_pow2_strictly_increases(scale, 1023);
    lemma_pow2_adds(53, 1022);
    if scale < 1022 {
        lemma_pow2_strictly_increases(scale, 1022);
    }
    let p = pow2(scale) as int;
    let top = pow2(1022) as int;
    let all = pow2(1075) as int;
    let s = sig as int;
    assert(s * p < all) by (nonlinear_arith)
        requires
            0 <= s < 9007199254740992,
            0 < p <= top,
            all == 9007199254740992 * top,
    ;
    assert(n == 0) by (nonlinear_arith)
        requires
            0 <= s,
            0 < p,
            s * p == n * all,
            s * p < all,
            all > 0,
    ;
    assert(s == 0) by (nonlinear_arith)
        requires
            s * p == n * all,
            n == 0,
            p > 0,
    ;
}

/// From 2^1023 to 2^1075 over the common scale, the integers are the multiples
/// of the missing power.
proof fn lemma_middle(sig: nat, scale: nat, n: int)
    requires
        1023 <= scale < 1075,
    ensures
        sig * pow2(scale) == n * pow2(1075) <==> sig == n * pow2((1075 - scale) as nat),
{
    let shift = (1075 - scale) as nat;
    lemma_pow2_adds(shift, scale);
    lemma_pow2_pos(scale);
    let s = pow2(shift) as int;
    let p = pow2(scale) as int;
    assert(n * (s * p) == (n * s) * p) by (nonlinear_arith);
    lemma_cancel(sig as int, n * s, p);
}

/// From 2^1075 over the common scale every number is an integer.
proof fn lemma_large(sig: nat, scale: nat, n: int)
    requires
        1075 <= scale,
    ensures
        sig * pow2(scale) == n * pow2(1075) <==> n == sig * pow2((scale - 1075) as nat),
{
    let up = (scale - 1075) as nat;
    lemma_pow2_adds(up, 1075);
    lemma_pow2_pos(1075);
    let s = pow2(up) as int;
    let p = pow2(1075) as int;
    let g = sig as int;
    assert(g * (s * p) == (g * s) * p) by (nonlinear_arith);
    lemma_cancel(g * s, n, p);
}

/// Two to a small power.
fn small_power(k: u32) -> (r: u64)
    requires
        k <= 63,
    ensures
        r == pow2(k as nat),
{
    let mut r: u64 = 1;
    let mut i: u32 = 0;
    assert(pow2(0) == 1) by {
        lemma2_to64();
    }
    while i < k
        invariant
            i <= k <= 63,
            r == pow2(i as nat),
        decreases k - i,
    {
        proof {
            lemma_pow2_unfold(i as nat + 1);
            lemma_power_bound(i as nat, 62);
            lemma2_to64_rest();
        }
        r = r * 2;
        i += 1;
    }
    r
}

/// Powers of two grow with the exponent.
proof fn lemma_power_bound(a: nat, b: nat)
    requires
        a <= b,
    ensures
        pow2(a) <= pow2(b),
{
    if a < b {
        lemma_pow2_strictly_increases(a, b);
    }
}

/// The signed integer of a magnitude.
fn signed(negative: bool, m: u64) -> (r: i64)
    requires
        m < SIGN_BIT,
    ensures
        r == (if negative {
            -(m as int)
        } else {
            m as int
        }),
{
    if negative {
        -(m as i64)
    } else {
        m as i64
    }
}

/// The 64-bit integer that a number equals, if there is one.
pub fn integer_value(bits: u64) -> (r: Option<i64>)
    ensures
        r == real_integer(bits),
{
    let negative: bool = bits >= SIGN_BIT;
    let e: u64 = (bits / FRACTION_LIMIT) % 2048;
    let m: u64 = bits % FRACTION_LIMIT;
    if e == 2047 {
        return None;
    }
    let sig: u64 = if e == 0 {
        m
    } else {
        FRACTION_LIMIT + m
    };
    let at: u64 = if e == 0 {
        1
    } else {
        e
    };
    assert(sig == significand(bits) && at == scale(bits));
    if at < 1023 {
        if sig == 0 {
            proof {
                assert(0nat * pow2(at as nat) == 0 * pow2(1075)) by (nonlinear_arith);
                lemma_real_integer_some(bits, 0);
            }
            return Some(0);
        }
        proof {
            assert forall|n: i64| !real_is(bits, n as int) by {
                if real_is(bits, n as int) {
                    lemma_below_one(sig as nat, at as nat, if negative {
                        -(n as int)
                    } else {
                        n as int
                    });
                }
            }
        }
        return None;
    }
    if at < 1075 {
        let power: u64 = small_power((1075 - at) as u32);
        proof {
            lemma_pow2_pos((1075 - at) as nat);
        }
        if sig % power != 0 {
            proof {
                assert forall|n: i64| !real_is(bits, n as int) by {
                    let k = if negative {
                        -(n as int)
                    } else {
                        n as int
                    };
                    lemma_middle(sig as nat, at as nat, k);
                    if sig as int == k * (power as int) {
                        vstd::arithmetic::div_mod::lemma_mod_multiples_basic(k, power as int);
                    }
                }
            }
            return None;
        }
        let q: u64 = sig / power;
        proof {
            let s = sig as int;
            let p = power as int;
            vstd::arithmetic::div_mod::lemma_fundamental_div_mod(s, p);
            assert(q as int * p == s) by (nonlinear_arith)
                requires
                    s == p * (s / p) + s % p,
                    s % p == 0,
                    q as int == s / p,
            ;
            lemma_middle(sig as nat, at as nat, q as int);
        }
        let n: i64 = signed(negative, q);
        proof {
            lemma_real_integer_some(bits, n);
        }
        return Some(n);
    }
    let up: u64 = at - 1075;
    if up <= 10 {
        let power: u64 = small_power(up as u32);
        proof {
            lemma_power_bound(up as nat, 10);
            lemma2_to64();
            lemma_pow2_pos(up as nat);
            let s = sig as int;
            let p = power as int;
            assert(0 <= s * p < 9223372036854775808) by (nonlinear_arith)
                requires
                    0 <= s < 9007199254740992,
                    0 < p <= 1024,
            ;
            lemma_large(sig as nat, at as nat, s * p);
        }
        let n: i64 = signed(negative, sig * power);
        proof {
            lemma_real_integer_some(bits, n);
        }
        return Some(n);
    }
    proof {
        lemma_power_bound(11, up as nat);
        lemma2_to64();
    }
    if up == 11 && negative && sig == FRACTION_LIMIT {
        proof {
            lemma_large(sig as nat, at as nat, 9223372036854775808);
            assert(4503599627370496nat * 2048nat == 9223372036854775808nat) by (nonlinear_arith);
            lemma_real_integer_some(bits, i64::MIN);
        }
        return Some(i64::MIN);
    }
    proof {
        assert forall|n: i64| !real_is(bits, n as int) by {
            let k = if negative {
                -(n as int)
            } else {
                n as int
            };
            lemma_large(sig as nat, at as nat, k);
            let s = sig as int;
            let p = pow2(up as nat) as int;
            if k == s * p {
                if up == 11 {
                    assert(s * p >= 9223372036854775808) by (nonlinear_arith)
                        requires
                            s >= 4503599627370496,
                            p == 2048,
                    ;
                    assert(k == 9223372036854775808);
                    assert(s == 4503599627370496) by (nonlinear_arith)
                        requires
                            s * p == 9223372036854775808,
                            p == 2048,
                    ;
                } else {
                    lemma_power_bound(12, up as nat);
                    assert(s * p >= 18446744073709551616) by (nonlinear_arith)
                        requires
                            s >= 4503599627370496,
                            p >= 4096,
                    ;
                }
            }
        }
    }
    None
}

/// A positive number lies between two neighbouring powers of two.
pub proof fn lemma_top_bit(m: nat)
    requires
        m > 0,
    ensures
        pow2(top_bit(m)) <= m < pow2(top_bit(m) + 1),
    decreases m,
{
    lemma2_to64();
    if m >= 2 {
        lemma_top_bit(m / 2);
        lemma_pow2_unfold(top_bit(m));
        lemma_pow2_unfold(top_bit(m) + 1);
    }
}

/// The position of the highest bit is the exponent of the power below.
proof fn lemma_top_bit_unique(m: nat, p: nat)
    requires
        pow2(p) <= m < pow2(p + 1),
    ensures
        top_bit(m) == p,
{
    lemma_pow2_pos(p);
    lemma_top_bit(m);
    if top_bit(m) < p {
        lemma_power_bound(top_bit(m) + 1, p);
    } else if p < top_bit(m) {
        lemma_power_bound(p + 1, top_bit(m));
    }
}

/// The bit pattern of the double nearest to an integer.
pub fn nearest_real(v: i64) -> (r: u64)
    ensures
        r == real_bits(v),
{
    if v == 0 {
        return 0;
    }
    let m: u64 = if v > 0 {
        v as u64
    } else {
        (-(v + 1)) as u64 + 1
    };
    assert(m == magnitude(v));
    let mut p: u32 = 0;
    let mut power: u64 = 1;
    proof {
        lemma2_to64();
        lemma2_to64_rest();
    }
    while p < 63 && m / 2 >= power
        invariant
            p <= 63,
            power == pow2(p as nat),
            power <= m <= 9223372036854775808,
        decreases 63 - p,
    {
        proof {
            lemma_pow2_unfold(p as nat + 1);
        }
        power = power * 2;
        p += 1;
    }
    proof {
        lemma_pow2_unfold(p as nat + 1);
        lemma_top_bit_unique(m as nat, p as nat);
    }
    let sig: u64 = if p <= 52 {
        let factor: u64 = small_power(52 - p);
        proof {
            lemma_pow2_adds(p as nat + 1, (52 - p) as nat);
            lemma2_to64_rest();
            lemma_pow2_pos((52 - p) as nat);
            let a = m as int;
            let f = factor as int;
            let b = pow2(p as nat + 1) as int;
            assert(0 <= a * f < 9007199254740992) by (nonlinear_arith)
                requires
                    0 <= a < b,
                    0 < f,
                    b * f == 9007199254740992,
            ;
        }
        m * factor
    } else {
        let divisor: u64 = small_power(p - 52);
        proof {
            lemma_pow2_pos((p - 52) as nat);
            lemma_power_bound((p - 52) as nat, 11);
            lemma_pow2_adds(53, (p - 52) as nat);
            lemma2_to64();
            lemma2_to64_rest();
        }
        let q: u64 = m / divisor;
        let r: u64 = m % divisor;
        proof {
            let a = m as int;
            let d = divisor as int;
            let b = pow2(p as nat + 1) as int;
            assert(p as nat + 1 == 53 + (p - 52) as nat);
            assert(b == 9007199254740992 * d);
            assert(a / d <= 9007199254740992) by (nonlinear_arith)
                requires
                    0 <= a < b,
                    d > 0,
                    b == 9007199254740992 * d,
            ;
        }
        if 2 * r > divisor || (2 * r == divisor && q % 2 == 1) {
            q + 1
        } else {
            q
        }
    };
    let body: u64 = (p as u64 + 1022) * FRACTION_LIMIT + sig;
    if v < 0 {
        SIGN_BIT + body
    } else {
        body
    }
}

/// An integer of at most 53 bits equals the double nearest to it.
pub proof fn nearest_real_is_exact(v: i64)
    requires
        magnitude(v) < 9007199254740992,
    ensures
        real_bits(v) <= u64::MAX,
        real_is(real_bits(v) as u64, v as int),
{
    if v == 0 {
        assert(0nat * pow2(1) == 0 * pow2(1075)) by (nonlinear_arith);
    } else {
        let m = magnitude(v);
        let p = top_bit(m);
        lemma_top_bit(m);
        lemma2_to64();
        lemma2_to64_rest();
        if p > 52 {
            lemma_power_bound(53, p);
        }
        let f = pow2((52 - p) as nat);
        lemma_pow2_pos((52 - p) as nat);
        lemma_pow2_adds(p, (52 - p) as nat);
        lemma_pow2_adds(p + 1, (52 - p) as nat);
        let sig = (m * f) as int;
        assert(4503599627370496 <= sig < 9007199254740992) by (nonlinear_arith)
            requires
                sig == m as int * f as int,
                pow2(p) as int <= m as int,
                (m as int) < (pow2(p + 1) as int),
                pow2(p) as int * f as int == 4503599627370496,
                pow2(p + 1) as int * f as int == 9007199254740992,
                f > 0,
        ;
        let bits = real_bits(v) as u64;
        assert(exponent(bits) == p + 1023);
        assert(fraction(bits) == sig - 4503599627370496);
        lemma_pow2_adds((52 - p) as nat, p + 1023);
        let a = m as int;
        let g = f as int;
        let h = pow2(p + 1023) as int;
        assert((a * g) * h == a * (g * h)) by (nonlinear_arith);
    }
}

/// Whether a double equals a multiple of a unit that lies within half a unit of
/// an integer, an even multiple where it lies just half a unit away.
pub open spec fn rounds_to(bits: u64, v: i64, unit: nat, q: nat) -> bool {
    let away = 2 * (q * unit - magnitude(v));
    &&& real_is(
        bits,
        if v < 0 {
            -(q * unit)
        } else {
            (q * unit) as int
        },
    )
    &&& -unit <= away <= unit
    &&& away == unit || away == -unit ==> q % 2 == 0
}

/// A longer integer than 53 bits is rounded to the nearest multiple of the unit
/// that the last of its first 53 bits stands for, and to the even one of two that
/// are as near.
pub proof fn longer_integers_are_rounded_to_the_nearest(v: i64)
    requires
        magnitude(v) >= 9007199254740992,
    ensures
        real_bits(v) <= u64::MAX,
        pow2(top_bit(magnitude(v))) <= magnitude(v) < pow2(top_bit(magnitude(v)) + 1),
        exists|q: nat|
            4503599627370496 <= q <= 9007199254740992 && #[trigger] rounds_to(
                real_bits(v) as u64,
                v,
                pow2((top_bit(magnitude(v)) - 52) as nat),
                q,
            ),
{
    let m = magnitude(v);
    let p = top_bit(m);
    lemma_top_bit(m);
    lemma2_to64();
    lemma2_to64_rest();
    if p < 53 {
        lemma_power_bound(p + 1, 53);
    }
    if p > 63 {
        lemma_power_bound(64, p);
    }
    let d = (p - 52) as nat;
    let unit = pow2(d);
    let q = rounded(m, d);
    lemma_pow2_pos(d);
    lemma_pow2_adds(52, d);
    lemma_pow2_adds(53, d);
    let low = (m / unit) as int;
    let rest = (m % unit) as int;
    let a = m as int;
    let u = unit as int;
    assert(a == low * u + rest && 0 <= rest < u) by (nonlinear_arith)
        requires
            low == a / u,
            rest == a % u,
            u > 0,
            a >= 0,
    ;
    assert(4503599627370496 <= low < 9007199254740992) by (nonlinear_arith)
        requires
            a == low * u + rest,
            0 <= rest < u,
            4503599627370496 * u <= a < 9007199254740992 * u,
            u > 0,
    ;
    assert((low + 1) * u == low * u + u) by (nonlinear_arith);
    let away = 2 * (q * unit - m);
    if q == low {
        assert(q * unit == low * u) by (nonlinear_arith)
            requires
                q == low,
                unit == u,
        ;
    } else {
        assert(q * unit == (low + 1) * u) by (nonlinear_arith)
            requires
                q == low + 1,
                unit == u,
        ;
    }
    assert(-unit <= away <= unit);
    let body = (p + 1022) * (FRACTION_LIMIT as nat) + q;
    let bits = real_bits(v) as u64;
    assert(real_bits(v) == (if v < 0 {
        SIGN_BIT as nat
    } else {
        0
    }) + body);
    assert(body < SIGN_BIT);
    assert(is_negative(bits) == (v < 0));
    if q < 9007199254740992 {
        assert(exponent(bits) == p + 1023);
        assert(fraction(bits) == q - 4503599627370496);
        assert(significand(bits) == q);
        lemma_large(q, p + 1023, (q * unit) as int);
    } else {
        assert(exponent(bits) == p + 1024);
        assert(fraction(bits) == 0);
        assert(significand(bits) == 4503599627370496);
        lemma_pow2_unfold(d + 1);
        let twice = pow2(d + 1);
        assert(4503599627370496 * twice == q * unit) by (nonlinear_arith)
            requires
                twice == 2 * unit,
                q == 9007199254740992,
        ;
        lemma_large(4503599627370496, p + 1024, (q * unit) as int);
    }
    assert(rounds_to(bits, v, unit, q));
}

} // verus!
