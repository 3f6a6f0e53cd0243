//! Rounding of rational numbers to binary formats, nearest first and ties to
//! the even significand.
//!
//! A format is given by two numbers. The precision `p` is the count of
//! significant bits, so a bit pattern is read in units of `2^(p-1)`: the
//! quotient is the exponent field and the remainder the stored fraction. The
//! scale `s` is the exponent of the smallest positive number: pattern 1 stands
//! for `2^-s`. A non-negative pattern `b` stands for `scaled(p, b) / 2^s`.
use vstd::arithmetic::div_mod::*;
use vstd::arithmetic::mul::*;
use vstd::arithmetic::power2::*;
use vstd::prelude::*;

verus! {

/// The number that pattern `bits` stands for, in units of the smallest positive
/// number of the format.
pub open spec fn scaled(p: nat, bits: nat) -> nat {
    let unit = pow2((p - 1) as nat);
    if bits < unit {
        bits
    } else {
        (unit + bits % unit) * pow2((bits / unit - 1) as nat)
    }
}

/// How far pattern `bits` is from the rational `n / d`, in units of
/// `2^-s / d`.
pub open spec fn miss(p: nat, s: nat, n: nat, d: nat, bits: nat) -> nat {
    let here = scaled(p, bits) * d;
    let there = n * pow2(s);
    if here <= there {
        (there - here) as nat
    } else {
        (here - there) as nat
    }
}

/// No pattern is nearer to `n / d` than `bits`, and where another is just as
/// near `bits` is the even one.
pub open spec fn is_nearest(p: nat, s: nat, n: nat, d: nat, bits: nat) -> bool {
    forall|other: nat|
        #![trigger miss(p, s, n, d, other)]
        {
            &&& miss(p, s, n, d, bits) <= miss(p, s, n, d, other)
            &&& miss(p, s, n, d, bits) == miss(p, s, n, d, other) && other != bits ==> bits % 2 == 0
        }
}

/// The pattern that `n / d` rounds to.
pub open spec fn nearest(p: nat, s: nat, n: nat, d: nat) -> nat {
    choose|bits: nat| is_nearest(p, s, n, d, bits)
}

/// The pattern of the floating-point quotient of two integers: each operand is
/// rounded to the format first, then their exact quotient is.
pub open spec fn quotient(p: nat, s: nat, n: nat, d: nat) -> nat {
    nearest(p, s, scaled(p, nearest(p, s, n, 1)), scaled(p, nearest(p, s, d, 1)))
}

/// The distance from `bits` to the next pattern up.
spec fn gap(p: nat, bits: nat) -> nat {
    let unit = pow2((p - 1) as nat);
    if bits < unit {
        1
    } else {
        pow2((bits / unit - 1) as nat)
    }
}

proof fn lemma_unit(p: nat)
    requires
        p >= 2,
    ensures
        pow2((p - 1) as nat) >= 2,
        pow2((p - 1) as nat) % 2 == 0,
{
    lemma_pow2_unfold((p - 1) as nat);
    lemma_pow2_pos((p - 2) as nat);
}

/// Pattern `t * unit + q`, with `q` a full significand, stands for `q * 2^t`.
proof fn lemma_encode(p: nat, q: nat, t: nat)
    requires
        p >= 2,
        pow2((p - 1) as nat) <= q < 2 * pow2((p - 1) as nat),
    ensures
        scaled(p, t * pow2((p - 1) as nat) + q) == q * pow2(t),
        gap(p, t * pow2((p - 1) as nat) + q) == pow2(t),
        (t * pow2((p - 1) as nat) + q) % 2 == q % 2,
{
    let unit = pow2((p - 1) as nat);
    lemma_unit(p);
    let bits = t * unit + q;
    let f = (q - unit) as nat;
    assert(bits == (t + 1) * unit + f) by (nonlinear_arith)
        requires
            bits == t * unit + q,
            q == unit + f,
    ;
    lemma_fundamental_div_mod_converse(bits as int, unit as int, (t + 1) as int, f as int);
    assert(bits >= unit) by (nonlinear_arith)
        requires
            bits == (t + 1) * unit + f,
    ;
    assert((t * unit) % 2 == 0) by {
        lemma_mul_mod_noop_right(t as int, unit as int, 2);
    }
}

/// Consecutive patterns are `gap` apart.
proof fn lemma_step(p: nat, bits: nat)
    requires
        p >= 2,
    ensures
        scaled(p, bits + 1) == scaled(p, bits) + gap(p, bits),
        gap(p, bits) >= 1,
{
    let unit = pow2((p - 1) as nat);
    lemma_unit(p);
    if bits + 1 < unit {
    } else if bits + 1 == unit {
        assert((bits + 1) / unit == 1 && (bits + 1) % unit == 0) by {
            lemma_fundamental_div_mod_converse((bits + 1) as int, unit as int, 1, 0);
        }
        assert(pow2(0) == 1) by {
            lemma2_to64();
        }
        assert(unit * pow2(0) == unit) by (nonlinear_arith)
            requires
                pow2(0) == 1,
        ;
    } else {
        let e = bits / unit;
        let f = bits % unit;
        lemma_fundamental_div_mod(bits as int, unit as int);
        assert(e >= 1) by (nonlinear_arith)
            requires
                bits == unit * e + f,
                bits >= unit,
                f < unit,
        ;
        let t = (e - 1) as nat;
        let q = unit + f;
        assert(bits == t * unit + q) by (nonlinear_arith)
            requires
                bits == unit * e + f,
                e == t + 1,
                q == unit + f,
        ;
        lemma_encode(p, q, t);
        lemma_pow2_pos(t);
        if q + 1 < 2 * unit {
            lemma_encode(p, q + 1, t);
            assert((q + 1) * pow2(t) == q * pow2(t) + pow2(t)) by (nonlinear_arith);
        } else {
            assert((t + 1) * unit + unit == bits + 1) by (nonlinear_arith)
                requires
                    bits == t * unit + q,
                    q + 1 == 2 * unit,
            ;
            lemma_encode(p, unit, t + 1);
            lemma_pow2_unfold(t + 1);
            assert(unit * (2 * pow2(t)) == q * pow2(t) + pow2(t)) by (nonlinear_arith)
                requires
                    q + 1 == 2 * unit,
            ;
        }
    }
}

/// Larger patterns stand for larger numbers.
proof fn lemma_increasing(p: nat, low: nat, high: nat)
    requires
        p >= 2,
        low < high,
    ensures
        scaled(p, low) + gap(p, low) <= scaled(p, high),
        scaled(p, low) < scaled(p, high),
    decreases high,
{
    lemma_step(p, low);
    if low + 1 < high {
        lemma_increasing(p, low, (high - 1) as nat);
        lemma_step(p, (high - 1) as nat);
    }
}

/// A pattern within half a gap of the target is the nearest one.
proof fn lemma_local(p: nat, s: nat, n: nat, d: nat, bits: nat)
    requires
        p >= 2,
        d > 0,
        scaled(p, bits) * d <= n * pow2(s) ==> {
            &&& 2 * (n * pow2(s) - scaled(p, bits) * d) <= gap(p, bits) * d
            &&& 2 * (n * pow2(s) - scaled(p, bits) * d) == gap(p, bits) * d ==> bits % 2 == 0
        },
        scaled(p, bits) * d > n * pow2(s) ==> {
            &&& bits > 0
            &&& 2 * (scaled(p, bits) * d - n * pow2(s)) <= gap(p, (bits - 1) as nat) * d
            &&& 2 * (scaled(p, bits) * d - n * pow2(s)) == gap(p, (bits - 1) as nat) * d ==> bits % 2
                == 0
        },
    ensures
        is_nearest(p, s, n, d, bits),
{
    let target = n * pow2(s);
    let here = scaled(p, bits);
    assert forall|other: nat| #![trigger miss(p, s, n, d, other)] {
        &&& miss(p, s, n, d, bits) <= miss(p, s, n, d, other)
        &&& miss(p, s, n, d, bits) == miss(p, s, n, d, other) && other != bits ==> bits % 2 == 0
    } by {
        let there = scaled(p, other);
        if other < bits {
            lemma_increasing(p, other, bits);
            lemma_step(p, (bits - 1) as nat);
            let below = scaled(p, (bits - 1) as nat);
            let g = gap(p, (bits - 1) as nat);
            if other < bits - 1 {
                lemma_increasing(p, other, (bits - 1) as nat);
            }
            assert(there * d <= below * d && below * d + g * d == here * d && g * d > 0) by (nonlinear_arith)
                requires
                    there <= below,
                    below + g == here,
                    g >= 1,
                    d > 0,
            ;
        } else if other > bits {
            lemma_increasing(p, bits, other);
            lemma_step(p, bits);
            let g = gap(p, bits);
            assert(there * d >= here * d + g * d && g * d > 0) by (nonlinear_arith)
                requires
                    there >= here + g,
                    g >= 1,
                    d > 0,
            ;
        }
    }
}

/// Rounding keeps the order: the smaller of two rationals never rounds to the
/// larger pattern.
pub proof fn lemma_nearest_monotone(
    p: nat,
    s: nat,
    n1: nat,
    d1: nat,
    bits1: nat,
    n2: nat,
    d2: nat,
    bits2: nat,
)
    requires
        p >= 2,
        d1 > 0,
        d2 > 0,
        n1 * d2 <= n2 * d1,
        is_nearest(p, s, n1, d1, bits1),
        is_nearest(p, s, n2, d2, bits2),
    ensures
        bits1 <= bits2,
{
    if bits1 > bits2 {
        let a1 = scaled(p, bits1);
        let a2 = scaled(p, bits2);
        let t1 = n1 * pow2(s);
        let t2 = n2 * pow2(s);
        lemma_increasing(p, bits2, bits1);
        assert(miss(p, s, n1, d1, bits1) <= miss(p, s, n1, d1, bits2));
        assert(miss(p, s, n2, d2, bits2) <= miss(p, s, n2, d2, bits1));
        assert(a2 * d1 < a1 * d1 && a2 * d2 < a1 * d2) by (nonlinear_arith)
            requires
                a2 < a1,
                d1 > 0,
                d2 > 0,
        ;
        assert(2 * t1 >= a1 * d1 + a2 * d1);
        assert(2 * t2 <= a1 * d2 + a2 * d2);
        assert(t1 * d2 <= t2 * d1) by (nonlinear_arith)
            requires
                n1 * d2 <= n2 * d1,
                t1 == n1 * pow2(s),
                t2 == n2 * pow2(s),
        ;
        assert((2 * t1) * d2 >= (a1 * d1 + a2 * d1) * d2) by (nonlinear_arith)
            requires
                2 * t1 >= a1 * d1 + a2 * d1,
        ;
        assert((2 * t2) * d1 <= (a1 * d2 + a2 * d2) * d1) by (nonlinear_arith)
            requires
                2 * t2 <= a1 * d2 + a2 * d2,
        ;
        assert((a1 * d1 + a2 * d1) * d2 == (a1 * d2 + a2 * d2) * d1) by (nonlinear_arith);
        assert((2 * t1) * d2 <= (2 * t2) * d1) by (nonlinear_arith)
            requires
                t1 * d2 <= t2 * d1,
        ;
        assert(2 * t1 == a1 * d1 + a2 * d1) by (nonlinear_arith)
            requires
                (2 * t1) * d2 == (a1 * d1 + a2 * d1) * d2,
                d2 > 0,
        ;
        assert(2 * t2 == a1 * d2 + a2 * d2) by (nonlinear_arith)
            requires
                (2 * t2) * d1 == (a1 * d2 + a2 * d2) * d1,
                d1 > 0,
        ;
        assert(miss(p, s, n1, d1, bits1) == miss(p, s, n1, d1, bits2));
        assert(miss(p, s, n2, d2, bits2) == miss(p, s, n2, d2, bits1));
        let c = scaled(p, bits2 + 1);
        lemma_increasing(p, bits2, bits2 + 1);
        lemma_increasing(p, bits2 + 1, bits1);
        assert(a2 * d1 < c * d1 < a1 * d1) by (nonlinear_arith)
            requires
                a2 < c < a1,
                d1 > 0,
        ;
        assert(miss(p, s, n1, d1, bits1) <= miss(p, s, n1, d1, bits2 + 1));
    }
}

/// A pattern is at most the number it stands for.
proof fn lemma_scaled_grows(p: nat, bits: nat)
    requires
        p >= 2,
    ensures
        bits <= scaled(p, bits),
    decreases bits,
{
    lemma_unit(p);
    if bits > 0 {
        lemma_scaled_grows(p, (bits - 1) as nat);
        lemma_step(p, (bits - 1) as nat);
    }
}

/// The largest pattern below `limit` that does not pass the target.
proof fn lemma_floor(p: nat, target: nat, d: nat, limit: nat) -> (bits: nat)
    requires
        p >= 2,
        scaled(p, limit) * d > target,
    ensures
        scaled(p, bits) * d <= target < scaled(p, bits + 1) * d,
    decreases limit,
{
    lemma_unit(p);
    if limit == 0 {
        assert(0 * d == 0);
        0
    } else if scaled(p, (limit - 1) as nat) * d <= target {
        (limit - 1) as nat
    } else {
        lemma_floor(p, target, d, (limit - 1) as nat)
    }
}

/// Every rational rounds to some pattern.
pub proof fn lemma_nearest_exists(p: nat, s: nat, n: nat, d: nat)
    requires
        p >= 2,
        d > 0,
    ensures
        is_nearest(p, s, n, d, nearest(p, s, n, d)),
{
    let target = n * pow2(s);
    lemma_scaled_grows(p, target + 1);
    assert(scaled(p, target + 1) * d > target) by (nonlinear_arith)
        requires
            scaled(p, target + 1) >= target + 1,
            d > 0,
    ;
    let bits = lemma_floor(p, target, d, target + 1);
    lemma_step(p, bits);
    let g = gap(p, bits);
    assert(scaled(p, bits + 1) * d == scaled(p, bits) * d + g * d) by (nonlinear_arith)
        requires
            scaled(p, bits + 1) == scaled(p, bits) + g,
    ;
    let below = target - scaled(p, bits) * d;
    if 2 * below < g * d || (2 * below == g * d && bits % 2 == 0) {
        lemma_local(p, s, n, d, bits);
    } else {
        lemma_local(p, s, n, d, bits + 1);
    }
}

/// A rational rounds to one pattern only.
pub proof fn lemma_nearest_is(p: nat, s: nat, n: nat, d: nat, bits: nat)
    requires
        p >= 2,
        d > 0,
        is_nearest(p, s, n, d, bits),
    ensures
        nearest(p, s, n, d) == bits,
{
    let chosen = nearest(p, s, n, d);
    lemma_nearest_monotone(p, s, n, d, chosen, n, d, bits);
    lemma_nearest_monotone(p, s, n, d, bits, n, d, chosen);
}

/// A number of the format rounds to itself.
pub proof fn lemma_nearest_exact(p: nat, s: nat, n: nat, d: nat, bits: nat)
    requires
        p >= 2,
        d > 0,
        scaled(p, bits) * d == n * pow2(s),
    ensures
        is_nearest(p, s, n, d, bits),
{
    lemma_step(p, bits);
    assert(gap(p, bits) * d > 0) by (nonlinear_arith)
        requires
            gap(p, bits) >= 1,
            d > 0,
    ;
    lemma_local(p, s, n, d, bits);
}

/// Rounding depends on the rational alone, not on how the fraction is written.
proof fn lemma_nearest_rescale(p: nat, s: nat, n: nat, d: nat, c: nat, bits: nat)
    requires
        p >= 2,
        d > 0,
        c > 0,
        is_nearest(p, s, n, d, bits),
    ensures
        is_nearest(p, s, n * c, d * c, bits),
{
    assert forall|other: nat| #![trigger miss(p, s, n * c, d * c, other)] {
        &&& miss(p, s, n * c, d * c, bits) <= miss(p, s, n * c, d * c, other)
        &&& miss(p, s, n * c, d * c, bits) == miss(p, s, n * c, d * c, other) && other != bits
            ==> bits % 2 == 0
    } by {
        lemma_miss_rescale(p, s, n, d, c, bits);
        lemma_miss_rescale(p, s, n, d, c, other);
        let x = miss(p, s, n, d, bits);
        let y = miss(p, s, n, d, other);
        assert(x * c <= y * c && (x * c == y * c ==> x == y)) by (nonlinear_arith)
            requires
                x <= y,
                c > 0,
        ;
    }
}

proof fn lemma_miss_rescale(p: nat, s: nat, n: nat, d: nat, c: nat, bits: nat)
    ensures
        miss(p, s, n * c, d * c, bits) == miss(p, s, n, d, bits) * c,
{
    let a = scaled(p, bits);
    let t = pow2(s);
    assert(a * (d * c) == (a * d) * c) by (nonlinear_arith);
    assert((n * c) * t == (n * t) * c) by (nonlinear_arith);
    assert(a * d <= n * t ==> (n * t - a * d) * c == (n * t) * c - (a * d) * c && (n * t) * c >= (a
        * d) * c) by (nonlinear_arith);
    assert(a * d > n * t ==> (a * d - n * t) * c == (a * d) * c - (n * t) * c && (n * t) * c <= (a
        * d) * c) by (nonlinear_arith);
}

/// The two patterns round `n / d`: it lies between `q * 2^t` and the next
/// number up, `r` out of `whole` parts of the way.
proof fn lemma_round(
    p: nat,
    s: nat,
    n: nat,
    d: nat,
    t: nat,
    q: nat,
    r: nat,
    whole: nat,
    weight: nat,
)
    requires
        p >= 2,
        d > 0,
        weight > 0,
        pow2((p - 1) as nat) <= q < 2 * pow2((p - 1) as nat),
        r < whole,
        pow2(t) * d == whole * weight,
        n * pow2(s) == (q * whole + r) * weight,
    ensures
        2 * r < whole || (2 * r == whole && q % 2 == 0) ==> is_nearest(
            p,
            s,
            n,
            d,
            t * pow2((p - 1) as nat) + q,
        ),
        !(2 * r < whole || (2 * r == whole && q % 2 == 0)) ==> is_nearest(
            p,
            s,
            n,
            d,
            t * pow2((p - 1) as nat) + q + 1,
        ),
{
    let bits = t * pow2((p - 1) as nat) + q;
    lemma_encode(p, q, t);
    lemma_step(p, bits);
    let here = scaled(p, bits);
    let target = n * pow2(s);
    let g = whole * weight;
    assert(here * d == q * g) by (nonlinear_arith)
        requires
            here == q * pow2(t),
            pow2(t) * d == g,
    ;
    assert(target == q * g + r * weight) by (nonlinear_arith)
        requires
            target == (q * whole + r) * weight,
            g == whole * weight,
    ;
    assert(0 <= r * weight < g && (2 * r < whole ==> 2 * (r * weight) < g) && (2 * r == whole ==> 2 * (
    r * weight) == g) && (2 * r > whole ==> 2 * (r * weight) > g)) by (nonlinear_arith)
        requires
            g == whole * weight,
            r < whole,
            weight > 0,
    ;
    if 2 * r < whole || (2 * r == whole && q % 2 == 0) {
        lemma_local(p, s, n, d, bits);
    } else {
        assert(scaled(p, bits + 1) * d == q * g + g) by (nonlinear_arith)
            requires
                scaled(p, bits + 1) == here + pow2(t),
                here * d == q * g,
                pow2(t) * d == g,
        ;
        lemma_local(p, s, n, d, bits + 1);
    }
}

/// Every integer below `2 * unit` has a pattern of its own.
proof fn lemma_small_integer(p: nat, s: nat, n: nat) -> (bits: nat)
    requires
        p >= 2,
        0 < n < 2 * pow2((p - 1) as nat),
        n * pow2(s) >= pow2((p - 1) as nat),
    ensures
        scaled(p, bits) == n * pow2(s),
    decreases s,
{
    let unit = pow2((p - 1) as nat);
    if n >= unit {
        lemma_encode(p, n, s);
        s * unit + n
    } else {
        if s == 0 {
            lemma2_to64();
            assert(n * pow2(0) == n) by (nonlinear_arith)
                requires
                    pow2(0) == 1,
            ;
        }
        lemma_pow2_unfold(s);
        let rest = pow2((s - 1) as nat);
        assert((2 * n) * rest == n * (2 * rest)) by (nonlinear_arith);
        lemma_small_integer(p, (s - 1) as nat, 2 * n)
    }
}

/// Zero rounds to pattern zero.
pub proof fn lemma_nearest_zero(p: nat, s: nat, d: nat)
    requires
        p >= 2,
        d > 0,
    ensures
        nearest(p, s, 0, d) == 0,
{
    lemma_unit(p);
    assert(scaled(p, 0) * d == 0 * pow2(s)) by (nonlinear_arith)
        requires
            scaled(p, 0) == 0,
    ;
    lemma_nearest_exact(p, s, 0, d, 0);
    lemma_nearest_is(p, s, 0, d, 0);
}

/// An integer of at most `p` bits is a number of the format, and so is the next
/// one.
pub proof fn lemma_integer_exact(p: nat, s: nat, n: nat)
    requires
        p >= 2,
        s + 1 >= p,
        n <= pow2(p),
    ensures
        scaled(p, nearest(p, s, n, 1)) == n * pow2(s),
{
    lemma_unit(p);
    lemma_pow2_unfold(p);
    if n == 0 {
        lemma_nearest_zero(p, s, 1);
        assert(0 * pow2(s) == 0);
    } else if n == pow2(p) {
        let unit = pow2((p - 1) as nat);
        lemma_encode(p, unit, s + 1);
        lemma_pow2_unfold(s + 1);
        assert(unit * (2 * pow2(s)) == n * pow2(s)) by (nonlinear_arith)
            requires
                n == 2 * unit,
        ;
        lemma_nearest_exact(p, s, n, 1, (s + 1) * unit + unit);
        lemma_nearest_is(p, s, n, 1, (s + 1) * unit + unit);
    } else {
        assert(pow2(s) >= pow2((p - 1) as nat)) by {
            if s > p - 1 {
                lemma_pow2_strictly_increases((p - 1) as nat, s);
            }
        }
        assert(n * pow2(s) >= pow2((p - 1) as nat)) by (nonlinear_arith)
            requires
                n >= 1,
                pow2(s) >= pow2((p - 1) as nat),
        ;
        let bits = lemma_small_integer(p, s, n);
        lemma_nearest_exact(p, s, n, 1, bits);
        lemma_nearest_is(p, s, n, 1, bits);
    }
}

/// The integer that `n` becomes when it is converted to the format.
fn round_integer(precision: u32, scale: u32, unit: u128, n: u128) -> (v: u128)
    requires
        2 <= precision <= 53,
        unit == pow2((precision - 1) as nat),
        unit <= 0x10_0000_0000_0000,
        scale + 1 >= precision,
        n <= 0x2_0000_0000_0000_0000,
    ensures
        v * pow2(scale as nat) == scaled(
            precision as nat,
            nearest(precision as nat, scale as nat, n as nat, 1),
        ),
        v <= 2 * n,
        n > 0 ==> v > 0,
{
    let ghost p: nat = precision as nat;
    let ghost s: nat = scale as nat;
    let mut step: u128 = 1;
    let ghost mut j: nat = 0;
    proof {
        lemma_unit(p);
        lemma2_to64();
    }
    while step * unit * 2 <= n
        invariant
            unit == pow2((precision - 1) as nat),
            2 <= unit <= 0x10_0000_0000_0000,
            n <= 0x2_0000_0000_0000_0000,
            step == pow2(j),
            step >= 1,
            j == 0 ==> step == 1,
            j == 0 || step * unit <= n,
            step * unit <= 0x2_0000_0000_0000_0000,
            step <= 0x2_0000_0000_0000_0000,
        decreases n - step,
    {
        proof {
            lemma_pow2_unfold(j + 1);
            assert(step < n && step * 2 <= n && (step * 2) * unit == step * unit * 2) by (nonlinear_arith)
                requires
                    step * unit * 2 <= n,
                    unit >= 2,
                    step >= 1,
            ;
            j = j + 1;
        }
        step = step * 2;
    }
    if step == 1 {
        proof {
            lemma_pow2_unfold(p);
            lemma_integer_exact(p, s, n as nat);
        }
        n
    } else {
        let q: u128 = n / step;
        let r: u128 = n % step;
        proof {
            lemma_fundamental_div_mod(n as int, step as int);
            assert(step * q + r == n && q * step + r == n) by (nonlinear_arith)
                requires
                    n == step * q + r,
            ;
            assert(unit <= q < 2 * unit && 0 < q * step <= n && 0 < (q + 1) * step <= 2 * n)
                by (nonlinear_arith)
                requires
                    step * q + r == n,
                    r < step,
                    step * unit <= n,
                    n < step * unit * 2,
                    unit >= 2,
                    step >= 1,
            ;
            let t = s + j;
            let w = pow2(s);
            lemma_pow2_pos(s);
            lemma_pow2_adds(s, j);
            assert(pow2(t) * 1 == step * w) by (nonlinear_arith)
                requires
                    pow2(t) == w * step,
            ;
            assert(n * w == (q * step + r) * w);
            lemma_round(p, s, n as nat, 1, t, q as nat, r as nat, step as nat, w);
            lemma_encode(p, q as nat, t);
            let low = t * unit + q;
            lemma_step(p, low as nat);
            assert((q * step) * w == q * pow2(t)) by (nonlinear_arith)
                requires
                    pow2(t) == w * step,
            ;
            assert(((q + 1) * step) * w == q * pow2(t) + pow2(t)) by (nonlinear_arith)
                requires
                    pow2(t) == w * step,
            ;
            if 2 * r < step || (2 * r == step && q % 2 == 0) {
                lemma_nearest_is(p, s, n as nat, 1, low as nat);
            } else {
                lemma_nearest_is(p, s, n as nat, 1, (low + 1) as nat);
            }
        }
        if 2 * r < step || (2 * r == step && q % 2 == 0) {
            q * step
        } else {
            (q + 1) * step
        }
    }
}

/// The pattern that `n / d` rounds to, for a fraction of at most one.
fn round_fraction(precision: u32, scale: u32, unit: u128, n: u128, d: u128) -> (bits: u128)
    requires
        2 <= precision <= 53,
        unit == pow2((precision - 1) as nat),
        unit <= 0x10_0000_0000_0000,
        precision + 66 <= scale <= 2000,
        n <= d,
        0 < d <= 0x4_0000_0000_0000_0000,
    ensures
        bits == nearest(precision as nat, scale as nat, n as nat, d as nat),
        bits <= (scale + 2) * unit,
{
    let ghost p: nat = precision as nat;
    let ghost s: nat = scale as nat;
    proof {
        lemma_unit(p);
    }
    if n == 0 {
        proof {
            lemma_nearest_zero(p, s, d as nat);
        }
        return 0;
    }
    let mut num: u128 = n;
    let mut k: u32 = 0;
    proof {
        lemma2_to64();
        assert(d * unit <= 0x4_0000_0000_0000_0000 * 0x10_0000_0000_0000 && d <= d * unit) by (nonlinear_arith)
            requires
                d <= 0x4_0000_0000_0000_0000,
                2 <= unit <= 0x10_0000_0000_0000,
        ;
        assert(n * pow2(0) == n) by (nonlinear_arith)
            requires
                pow2(0) == 1,
        ;
    }
    while num < d * unit
        invariant
            p == precision,
            2 <= precision <= 53,
            unit == pow2((precision - 1) as nat),
            2 <= unit <= 0x10_0000_0000_0000,
            0 < d <= 0x4_0000_0000_0000_0000,
            n > 0,
            d * unit <= 0x4_0000_0000_0000_0000 * 0x10_0000_0000_0000,
            num == n * pow2(k as nat),
            pow2(k as nat) <= num,
            num < 2 * (d * unit),
            k <= precision + 66,
        decreases 2 * (d * unit) - num,
    {
        proof {
            let e = (p + 65) as nat;
            lemma_pow2_adds(66, (p - 1) as nat);
            lemma_pow2_adds(64, 2);
            lemma2_to64();
            lemma2_to64_rest();
            assert(d * unit <= pow2(66) * pow2((p - 1) as nat)) by (nonlinear_arith)
                requires
                    d <= pow2(66),
                    unit == pow2((p - 1) as nat),
            ;
            if k >= e {
                if k > e {
                    lemma_pow2_strictly_increases(e, k as nat);
                }
                assert(false);
            }
            lemma_pow2_unfold((k + 1) as nat);
            assert(n * (2 * pow2(k as nat)) == 2 * (n * pow2(k as nat))) by (nonlinear_arith);
            lemma_pow2_pos(k as nat);
        }
        num = num * 2;
        k = k + 1;
    }
    let q: u128 = num / d;
    let r: u128 = num % d;
    let t: u32 = scale - k;
    proof {
        lemma_fundamental_div_mod(num as int, d as int);
        assert(q * d + r == num && unit <= q < 2 * unit) by (nonlinear_arith)
            requires
                num == d * q + r,
                0 <= r < d,
                d * unit <= num < 2 * (d * unit),
        ;
        let w = pow2(t as nat);
        lemma_pow2_pos(t as nat);
        lemma_pow2_adds(k as nat, t as nat);
        assert(w * d == d * w) by (nonlinear_arith);
        assert(n * pow2(s) == (q * d + r) * w) by (nonlinear_arith)
            requires
                pow2(s) == pow2(k as nat) * w,
                q * d + r == n * pow2(k as nat),
        ;
        lemma_round(p, s, n as nat, d as nat, t as nat, q as nat, r as nat, d as nat, w);
        assert(t * unit + q + 1 <= (scale + 2) * unit && t * unit <= 2000 * 0x10_0000_0000_0000)
            by (nonlinear_arith)
            requires
                t <= scale <= 2000,
                q < 2 * unit,
                unit <= 0x10_0000_0000_0000,
        ;
        let low = (t * unit + q) as nat;
        if 2 * r < d || (2 * r == d && q % 2 == 0) {
            lemma_nearest_is(p, s, n as nat, d as nat, low);
        } else {
            lemma_nearest_is(p, s, n as nat, d as nat, low + 1);
        }
    }
    if 2 * r < d || (2 * r == d && q % 2 == 0) {
        t as u128 * unit + q
    } else {
        t as u128 * unit + q + 1
    }
}

/// The order of two integers survives their conversion to the format.
proof fn lemma_convert_monotone(p: nat, s: nat, low: nat, high: nat)
    requires
        p >= 2,
        low <= high,
    ensures
        scaled(p, nearest(p, s, low, 1)) <= scaled(p, nearest(p, s, high, 1)),
{
    let a = nearest(p, s, low, 1);
    let b = nearest(p, s, high, 1);
    lemma_nearest_exists(p, s, low, 1);
    lemma_nearest_exists(p, s, high, 1);
    lemma_nearest_monotone(p, s, low, 1, a, high, 1, b);
    if a < b {
        lemma_increasing(p, a, b);
    }
}

/// The floating-point quotient `n / d` of two integers, for a quotient of at
/// most one.
pub(crate) fn divide(precision: u32, scale: u32, unit: u128, n: u128, d: u128) -> (bits: u128)
    requires
        2 <= precision <= 53,
        unit == pow2((precision - 1) as nat),
        unit <= 0x10_0000_0000_0000,
        precision + 66 <= scale <= 2000,
        n <= d,
        0 < d <= 0x2_0000_0000_0000_0000,
    ensures
        bits == quotient(precision as nat, scale as nat, n as nat, d as nat),
        bits <= (scale + 2) * unit,
{
    let ghost p: nat = precision as nat;
    let ghost s: nat = scale as nat;
    let num: u128 = round_integer(precision, scale, unit, n);
    let den: u128 = round_integer(precision, scale, unit, d);
    let ghost w: nat = pow2(s);
    proof {
        lemma_pow2_pos(s);
        lemma_convert_monotone(p, s, n as nat, d as nat);
        assert(num <= den) by (nonlinear_arith)
            requires
                num * w <= den * w,
                w > 0,
        ;
    }
    let bits: u128 = round_fraction(precision, scale, unit, num, den);
    proof {
        lemma_nearest_exists(p, s, num as nat, den as nat);
        lemma_nearest_rescale(p, s, num as nat, den as nat, w, bits as nat);
        assert(den * w > 0) by (nonlinear_arith)
            requires
                den > 0,
                w > 0,
        ;
        lemma_nearest_is(p, s, (num * w) as nat, (den * w) as nat, bits as nat);
    }
    bits
}

/// A positive integer stays positive when it is converted to the format.
pub proof fn lemma_convert_positive(p: nat, s: nat, n: nat)
    requires
        p >= 2,
        s + 1 >= p,
        n > 0,
    ensures
        scaled(p, nearest(p, s, n, 1)) > 0,
{
    lemma_pow2_unfold(p);
    lemma_unit(p);
    lemma_integer_exact(p, s, 1);
    lemma_pow2_pos(s);
    lemma_convert_monotone(p, s, 1, n);
}

/// The quotient does not grow when the numerator shrinks and the denominator
/// grows.
pub proof fn lemma_quotient_monotone(p: nat, s: nat, n1: nat, d1: nat, n2: nat, d2: nat)
    requires
        p >= 2,
        s + 1 >= p,
        n1 <= n2,
        0 < d2 <= d1,
    ensures
        quotient(p, s, n1, d1) <= quotient(p, s, n2, d2),
{
    let a1 = scaled(p, nearest(p, s, n1, 1));
    let b1 = scaled(p, nearest(p, s, d1, 1));
    let a2 = scaled(p, nearest(p, s, n2, 1));
    let b2 = scaled(p, nearest(p, s, d2, 1));
    lemma_convert_monotone(p, s, n1, n2);
    lemma_convert_monotone(p, s, d2, d1);
    lemma_convert_positive(p, s, d1);
    lemma_convert_positive(p, s, d2);
    assert(a1 * b2 <= a2 * b1) by (nonlinear_arith)
        requires
            a1 <= a2,
            b2 <= b1,
    ;
    lemma_nearest_exists(p, s, a1, b1);
    lemma_nearest_exists(p, s, a2, b2);
    lemma_nearest_monotone(p, s, a1, b1, quotient(p, s, n1, d1), a2, b2, quotient(p, s, n2, d2));
}

/// The quotient of a part by its whole is at most one.
pub proof fn lemma_quotient_at_most_one(p: nat, s: nat, n: nat, d: nat)
    requires
        p >= 2,
        s + 1 >= p,
        n <= d,
        d > 0,
    ensures
        quotient(p, s, n, d) <= nearest(p, s, 1, 1),
{
    let a = scaled(p, nearest(p, s, n, 1));
    let b = scaled(p, nearest(p, s, d, 1));
    lemma_convert_monotone(p, s, n, d);
    lemma_convert_positive(p, s, d);
    lemma_nearest_exists(p, s, a, b);
    lemma_nearest_exists(p, s, 1, 1);
    lemma_nearest_monotone(p, s, a, b, quotient(p, s, n, d), 1, 1, nearest(p, s, 1, 1));
}

/// A number other than zero divided by itself is one.
pub proof fn lemma_quotient_of_itself(p: nat, s: nat, n: nat)
    requires
        p >= 2,
        s + 1 >= p,
        n > 0,
    ensures
        quotient(p, s, n, n) == nearest(p, s, 1, 1),
{
    let a = scaled(p, nearest(p, s, n, 1));
    lemma_convert_positive(p, s, n);
    lemma_nearest_exists(p, s, a, a);
    lemma_nearest_exists(p, s, 1, 1);
    lemma_nearest_monotone(p, s, a, a, quotient(p, s, n, n), 1, 1, nearest(p, s, 1, 1));
    lemma_nearest_monotone(p, s, 1, 1, nearest(p, s, 1, 1), a, a, quotient(p, s, n, n));
}

/// Between integers of at most `p` bits the quotient is the exact fraction,
/// rounded once.
pub proof fn lemma_quotient_rounds_once(p: nat, s: nat, n: nat, d: nat)
    requires
        p >= 2,
        s + 1 >= p,
        n <= pow2(p),
        0 < d <= pow2(p),
    ensures
        quotient(p, s, n, d) == nearest(p, s, n, d),
{
    let w = pow2(s);
    lemma_pow2_pos(s);
    lemma_integer_exact(p, s, n);
    lemma_integer_exact(p, s, d);
    lemma_nearest_exists(p, s, n, d);
    lemma_nearest_rescale(p, s, n, d, w, nearest(p, s, n, d));
    assert(d * w > 0) by (nonlinear_arith)
        requires
            d > 0,
            w > 0,
    ;
    lemma_nearest_is(p, s, n * w, d * w, nearest(p, s, n, d));
}

/// A rational at or above a number of the format rounds to that number or
/// higher; one below it rounds to that number or lower.
pub proof fn lemma_nearest_against(p: nat, s: nat, n: nat, d: nat, bits: nat)
    requires
        p >= 2,
        d > 0,
    ensures
        scaled(p, bits) * d <= n * pow2(s) ==> nearest(p, s, n, d) >= bits,
        scaled(p, bits) * d >= n * pow2(s) ==> nearest(p, s, n, d) <= bits,
{
    let w = pow2(s);
    lemma_pow2_pos(s);
    lemma_nearest_exists(p, s, n, d);
    lemma_nearest_exact(p, s, scaled(p, bits), w, bits);
    if scaled(p, bits) * d <= n * w {
        lemma_nearest_monotone(p, s, scaled(p, bits), w, bits, n, d, nearest(p, s, n, d));
    }
    if scaled(p, bits) * d >= n * w {
        lemma_nearest_monotone(p, s, n, d, nearest(p, s, n, d), scaled(p, bits), w, bits);
    }
}

/// A fraction of `2^p` is a number of the format.
pub proof fn lemma_quotient_of_power(p: nat, s: nat, n: nat)
    requires
        p >= 2,
        s + 1 >= 2 * p,
        n < pow2(p),
    ensures
        scaled(p, quotient(p, s, n, pow2(p))) * pow2(p) == n * pow2(s),
{
    let d = pow2(p);
    lemma_pow2_pos(p);
    lemma_unit(p);
    lemma_pow2_unfold(p);
    lemma_quotient_rounds_once(p, s, n, d);
    if n == 0 {
        lemma_nearest_zero(p, s, d);
        assert(0 * pow2(s) == 0 && 0 * d == 0);
    } else {
        let rest = (s - p) as nat;
        lemma_pow2_adds(p, rest);
        if rest > p - 1 {
            lemma_pow2_strictly_increases((p - 1) as nat, rest);
        }
        assert(n * pow2(rest) >= pow2((p - 1) as nat)) by (nonlinear_arith)
            requires
                n >= 1,
                pow2(rest) >= pow2((p - 1) as nat),
        ;
        let bits = lemma_small_integer(p, rest, n);
        assert((n * pow2(rest)) * d == n * pow2(s)) by (nonlinear_arith)
            requires
                pow2(s) == d * pow2(rest),
        ;
        lemma_nearest_exact(p, s, n, d, bits);
        lemma_nearest_is(p, s, n, d, bits);
    }
}

}
