//! Binary floating point in integers.
//!
//! A [`Num`] is an IEEE 754 binary32 number: 24 significant bits, gradual
//! underflow, signed zeros, infinities, and one value for what is not a number.
//! Every operation computes its exact result and rounds it to the nearest number,
//! ties to even.
use vstd::arithmetic::div_mod::{
    lemma_div_denominator, lemma_fundamental_div_mod, lemma_fundamental_div_mod_converse,
    lemma_mod_multiples_basic,
};
use vstd::arithmetic::power2::{
    lemma2_to64, lemma_pow2_adds, lemma_pow2_pos, lemma_pow2_strictly_increases,
    lemma_pow2_unfold, pow2,
};
use vstd::prelude::*;

verus! {

/// Integers below this have at most 24 significant bits.
pub const SIGNIFICAND: u128 = 0x100_0000;

/// Units in the number 1. A unit is the smallest positive number, 2^-149.
pub open spec fn one() -> nat {
    pow2(149)
}

/// Units in the smallest power of two that is too large to be a number.
pub open spec fn top() -> nat {
    pow2(277)
}

/// What a number is worth. A finite one is a number of units, with a sign that
/// zero has too.
pub enum Value {
    Nan,
    Infinite { negative: bool },
    Finite { negative: bool, units: nat },
}

/// The distance between neighbouring numbers with a 24-bit significand near `q`.
pub open spec fn spacing(q: nat) -> nat
    decreases q,
{
    if q < SIGNIFICAND {
        1
    } else {
        2 * spacing(q / 2)
    }
}

/// The integer nearest to `n / d`; of two equally near, the even one.
pub open spec fn nearest(n: nat, d: nat) -> nat {
    let k = n / d;
    let r = n % d;
    if 2 * r > d || (2 * r == d && k % 2 == 1) {
        k + 1
    } else {
        k
    }
}

/// `n / d`, rounded to 24 significant bits.
pub open spec fn round24(n: nat, d: nat) -> nat {
    let step = spacing(n / d);
    nearest(n, d * step) * step
}

/// `n / d` units with a sign, rounded; infinite where that is too large.
pub open spec fn rounded(negative: bool, n: nat, d: nat) -> Value {
    let size = round24(n, d);
    if size >= top() {
        Value::Infinite { negative }
    } else {
        Value::Finite { negative, units: size }
    }
}

/// Whether `q` has at most 24 significant bits: it lies on the grid that it is
/// rounded to.
pub open spec fn on_grid(q: nat) -> bool {
    q % spacing(q) == 0
}

/// Whether a value is that of a number: if finite, it has at most 24 significant
/// bits and is not too large.
pub open spec fn exact(v: Value) -> bool {
    v matches Value::Finite { negative, units } ==> on_grid(units) && units < top()
}

/// The integer part of the square root of `n`.
pub open spec fn floor_sqrt(n: nat) -> nat {
    choose|s: nat| #[trigger] (s * s) <= n < (s + 1) * (s + 1)
}

/// A number of units with its sign.
pub open spec fn signed(negative: bool, units: nat) -> int {
    if negative {
        -units
    } else {
        units as int
    }
}

/// The value with the other sign.
pub open spec fn negated(v: Value) -> Value {
    match v {
        Value::Nan => v,
        Value::Infinite { negative } => Value::Infinite { negative: !negative },
        Value::Finite { negative, units } => Value::Finite { negative: !negative, units },
    }
}

/// The value without its sign.
pub open spec fn size_spec(v: Value) -> Value {
    match v {
        Value::Nan => v,
        Value::Infinite { .. } => Value::Infinite { negative: false },
        Value::Finite { units, .. } => Value::Finite { negative: false, units },
    }
}

pub open spec fn add_spec(a: Value, b: Value) -> Value {
    match (a, b) {
        (Value::Nan, _) => Value::Nan,
        (_, Value::Nan) => Value::Nan,
        (Value::Infinite { negative: s }, Value::Infinite { negative: t }) => if s == t {
            a
        } else {
            Value::Nan
        },
        (Value::Infinite { .. }, _) => a,
        (_, Value::Infinite { .. }) => b,
        (Value::Finite { negative: s, units: m }, Value::Finite { negative: t, units: n }) => {
            let sum = signed(s, m) + signed(t, n);
            if sum == 0 {
                Value::Finite { negative: s && t, units: 0 }
            } else if sum < 0 {
                rounded(true, (-sum) as nat, 1)
            } else {
                rounded(false, sum as nat, 1)
            }
        },
    }
}

pub open spec fn sub_spec(a: Value, b: Value) -> Value {
    add_spec(a, negated(b))
}

pub open spec fn mul_spec(a: Value, b: Value) -> Value {
    match (a, b) {
        (Value::Nan, _) => Value::Nan,
        (_, Value::Nan) => Value::Nan,
        (Value::Infinite { negative: s }, Value::Infinite { negative: t }) => Value::Infinite {
            negative: s != t,
        },
        (Value::Infinite { negative: s }, Value::Finite { negative: t, units }) => if units == 0 {
            Value::Nan
        } else {
            Value::Infinite { negative: s != t }
        },
        (Value::Finite { negative: s, units }, Value::Infinite { negative: t }) => if units == 0 {
            Value::Nan
        } else {
            Value::Infinite { negative: s != t }
        },
        (Value::Finite { negative: s, units: m }, Value::Finite { negative: t, units: n }) =>
            rounded(s != t, m * n, one()),
    }
}

pub open spec fn div_spec(a: Value, b: Value) -> Value {
    match (a, b) {
        (Value::Nan, _) => Value::Nan,
        (_, Value::Nan) => Value::Nan,
        (Value::Infinite { .. }, Value::Infinite { .. }) => Value::Nan,
        (Value::Infinite { negative: s }, Value::Finite { negative: t, .. }) => Value::Infinite {
            negative: s != t,
        },
        (Value::Finite { negative: s, .. }, Value::Infinite { negative: t }) => Value::Finite {
            negative: s != t,
            units: 0,
        },
        (Value::Finite { negative: s, units: m }, Value::Finite { negative: t, units: n }) => if n
            == 0 {
            if m == 0 {
                Value::Nan
            } else {
                Value::Infinite { negative: s != t }
            }
        } else {
            rounded(s != t, m * one(), n)
        },
    }
}

/// The square root of a number of units, rounded. Halves of a unit tell a root
/// that is exact from one that lies between two integers.
pub open spec fn rounded_root(units: nat) -> Value {
    let n = units * one();
    let s = floor_sqrt(n);
    rounded(false, 2 * s + if s * s == n { 0nat } else { 1nat }, 2)
}

pub open spec fn sqrt_spec(a: Value) -> Value {
    match a {
        Value::Nan => a,
        Value::Infinite { negative } => if negative {
            Value::Nan
        } else {
            a
        },
        Value::Finite { negative, units } => if units == 0 {
            a
        } else if negative {
            Value::Nan
        } else {
            rounded_root(units)
        },
    }
}

/// Whether `a` is at most `b`. What is not a number compares with nothing.
pub open spec fn le(a: Value, b: Value) -> bool {
    match (a, b) {
        (Value::Nan, _) => false,
        (_, Value::Nan) => false,
        (Value::Infinite { negative: s }, Value::Infinite { negative: t }) => s || !t,
        (Value::Infinite { negative: s }, _) => s,
        (_, Value::Infinite { negative: t }) => !t,
        (Value::Finite { negative: s, units: m }, Value::Finite { negative: t, units: n }) =>
            signed(s, m) <= signed(t, n),
    }
}

/// Whether `a` is less than `b`.
pub open spec fn lt(a: Value, b: Value) -> bool {
    !(a is Nan) && !(b is Nan) && !le(b, a)
}

pub open spec fn clamp_spec(a: Value, low: Value, high: Value) -> Value {
    if lt(a, low) {
        low
    } else if lt(high, a) {
        high
    } else {
        a
    }
}

/// The lesser of two values, or the one that is a number.
pub open spec fn min_spec(a: Value, b: Value) -> Value {
    if a is Nan {
        b
    } else if b is Nan {
        a
    } else if le(a, b) {
        a
    } else {
        b
    }
}

/// The integer part as a byte: at least 0, at most 255, and 0 for what is not a
/// number.
pub open spec fn byte_spec(a: Value) -> u8 {
    match a {
        Value::Nan => 0,
        Value::Infinite { negative } => if negative {
            0
        } else {
            255
        },
        Value::Finite { negative, units } => if negative {
            0
        } else if units / one() > 255 {
            255
        } else {
            (units / one()) as u8
        },
    }
}

/// The integer `n`.
pub open spec fn whole_spec(n: nat) -> Value {
    Value::Finite { negative: false, units: n * one() }
}

/// Halfway from `n` to `n + 1`.
pub open spec fn half_past_spec(n: nat) -> Value {
    Value::Finite { negative: false, units: (2 * n + 1) * pow2(148) }
}

/// The number nearest to `n / d`.
pub open spec fn ratio_spec(n: nat, d: nat) -> Value {
    rounded(false, n * one(), d)
}

proof fn lemma_spacing_positive(q: nat)
    ensures
        spacing(q) >= 1,
    decreases q,
{
    if q >= SIGNIFICAND {
        lemma_spacing_positive(q / 2);
    }
}

/// Doubling keeps the significant bits.
proof fn lemma_doubled(x: nat)
    requires
        on_grid(x),
    ensures
        on_grid(2 * x),
{
    lemma_spacing_positive(x);
    lemma_spacing_positive(2 * x);
    if 2 * x >= SIGNIFICAND {
        let s = spacing(x);
        assert((2 * x) / 2 == x);
        assert(spacing(2 * x) == 2 * s);
        lemma_fundamental_div_mod(x as int, s as int);
        let k = x / s;
        assert(2 * x == k * (2 * s)) by (nonlinear_arith)
            requires
                x == s * k,
        ;
        lemma_mod_multiples_basic(k as int, (2 * s) as int);
    } else {
        assert(spacing(2 * x) == 1);
    }
}

/// An integer of at most 24 bits has at most 24 significant ones.
proof fn lemma_small_on_grid(k: nat)
    requires
        k <= SIGNIFICAND,
    ensures
        on_grid(k),
{
    if k == SIGNIFICAND {
        assert(spacing((k / 2) as nat) == 1);
        assert(spacing(k) == 2);
    }
}

/// Powers of two add no significant bits.
pub proof fn lemma_shifted_on_grid(k: nat, j: nat)
    requires
        k <= SIGNIFICAND,
    ensures
        on_grid(k * pow2(j)),
    decreases j,
{
    if j == 0 {
        lemma2_to64();
        lemma_small_on_grid(k);
        assert(k * 1 == k);
    } else {
        let i = (j - 1) as nat;
        lemma_shifted_on_grid(k, i);
        lemma_pow2_unfold(j);
        lemma_doubled(k * pow2(i));
        assert(k * (2 * pow2(i)) == 2 * (k * pow2(i))) by (nonlinear_arith);
    }
}

/// What fits 24 bits and is shifted far enough to the left only is not too large.
pub proof fn lemma_below_top(k: nat, j: nat)
    requires
        k < SIGNIFICAND,
        j <= 253,
    ensures
        k * pow2(j) < top(),
{
    lemma2_to64();
    lemma_pow2_adds(24, j);
    lemma_pow2_pos(j);
    if j < 253 {
        lemma_pow2_strictly_increases((24 + j) as nat, 277);
    }
    assert(k * pow2(j) < 0x100_0000 * pow2(j)) by (nonlinear_arith)
        requires
            k < 0x100_0000,
            pow2(j) > 0,
    ;
}

/// The small integers are numbers.
pub proof fn lemma_whole_is_exact(n: nat)
    requires
        n < SIGNIFICAND,
    ensures
        exact(whole_spec(n)),
{
    lemma_shifted_on_grid(n, 149);
    lemma_below_top(n, 149);
}

/// The spacing at `q` is the power of two that leaves it 24 bits.
proof fn lemma_spacing_at(q: nat, j: nat)
    requires
        0x80_0000 * pow2(j) <= q < 0x100_0000 * pow2(j),
    ensures
        spacing(q) == pow2(j),
    decreases j,
{
    if j == 0 {
        lemma2_to64();
    } else {
        lemma_pow2_unfold(j);
        lemma_pow2_pos((j - 1) as nat);
        lemma_spacing_at(q / 2, (j - 1) as nat);
    }
}

/// Whether `k` is the multiple of `unit` that a value rounds to, from twice the
/// distance that the value lies above it: less than half a unit, or half a unit
/// where `k` is even.
pub open spec fn rounds_here(twice: int, unit: nat, k: nat) -> bool {
    -unit < twice < unit || (k % 2 == 0 && (twice == unit || twice == -unit))
}

/// What `n / d` is rounded to: `k` times `step`, which is 2^j, where it is nearer
/// to that than to any other multiple; `unit` is `d` times that step.
pub proof fn lemma_rounded_value(n: nat, d: nat, j: nat, step: nat, unit: nat, k: nat)
    requires
        d > 0,
        step == pow2(j),
        unit == d * step,
        0x80_0000 * step <= n / d < 0x100_0000 * step,
        rounds_here(2 * (n - k * unit), unit, k),
    ensures
        round24(n, d) == k * step,
{
    lemma_spacing_at(n / d, j);
    lemma_pow2_pos(j);
    assert(unit > 0) by (nonlinear_arith)
        requires
            d > 0,
            step > 0,
            unit == d * step,
    ;
    if n >= k * unit {
        lemma_fundamental_div_mod_converse(n as int, unit as int, k as int, n - k * unit);
    } else {
        assert(k >= 1) by (nonlinear_arith)
            requires
                n < k * unit,
                n >= 0,
        ;
        assert((k - 1) * unit == k * unit - unit) by (nonlinear_arith);
        lemma_fundamental_div_mod_converse(
            n as int,
            unit as int,
            k - 1,
            n - (k * unit - unit),
        );
    }
}

/// Rounding leaves a number as it is.
pub proof fn lemma_exact_stays(negative: bool, q: nat)
    requires
        exact(Value::Finite { negative, units: q }),
    ensures
        rounded(negative, q, 1) == (Value::Finite { negative, units: q }),
        rounded(negative, q * one(), one()) == (Value::Finite { negative, units: q }),
{
    let step = spacing(q);
    lemma_spacing_positive(q);
    lemma_fundamental_div_mod(q as int, step as int);
    let k = q / step;
    assert(k * step == q) by (nonlinear_arith)
        requires
            q == step * k,
    ;
    assert(q / 1 == q);
    assert(1 * step == step);
    assert(round24(q, 1) == q);
    let w = one();
    lemma_pow2_pos(149);
    assert((q * w) / w == q) by (nonlinear_arith)
        requires
            w > 0,
    ;
    assert(q * w == k * (w * step) + 0) by (nonlinear_arith)
        requires
            q == step * k,
    ;
    assert(w * step > 0) by (nonlinear_arith)
        requires
            w > 0,
            step > 0,
    ;
    lemma_fundamental_div_mod_converse((q * w) as int, (w * step) as int, k as int, 0);
    assert(round24(q * w, w) == q);
}

/// Zero stays zero.
pub proof fn lemma_rounded_zero(negative: bool, d: nat)
    requires
        d > 0,
    ensures
        rounded(negative, 0, d) == (Value::Finite { negative, units: 0 }),
{
    assert(0nat / d == 0) by (nonlinear_arith)
        requires
            d > 0,
    ;
    assert(0nat % d == 0) by (nonlinear_arith)
        requires
            d > 0,
    ;
    assert(spacing(0) == 1);
    assert(nearest(0, d) == 0);
    assert(round24(0, d) == 0);
    lemma_pow2_pos(277);
}

/// Two floors of one square root are the same.
pub proof fn lemma_floor_sqrt_unique(n: nat, s: nat)
    requires
        s * s <= n < (s + 1) * (s + 1),
    ensures
        floor_sqrt(n) == s,
{
    let t = floor_sqrt(n);
    assert(t * t <= n < (t + 1) * (t + 1));
    if t < s {
        assert((t + 1) * (t + 1) <= s * s) by (nonlinear_arith)
            requires
                t + 1 <= s,
        ;
    }
    if s < t {
        assert((s + 1) * (s + 1) <= t * t) by (nonlinear_arith)
            requires
                s + 1 <= t,
        ;
    }
}

/// Whether `num / den` lies at `n` times 2^e, or, if it is `inexact`, between that
/// and `n + 1` times 2^e. Both sides are multiplied by 2^500, so that no power is
/// negative.
spec fn lies_at(n: nat, e: int, inexact: bool, num: nat, den: nat) -> bool {
    let x = pow2((e + 500) as nat) * den;
    let y = num * pow2(500);
    &&& n * x <= y < (n + 1) * x
    &&& inexact <==> n * x != y
}

/// Which multiple of `u` is nearest to `num`, where `num` is known by `n` parts of
/// which `unit` make up `u`.
proof fn lemma_nearest(
    num: nat,
    w: nat,
    x: nat,
    u: nat,
    n: nat,
    unit: nat,
    k: nat,
    r: nat,
    inexact: bool,
)
    requires
        w > 0,
        x > 0,
        unit >= 2,
        unit % 2 == 0,
        n == k * unit + r,
        r < unit,
        u * w == unit * x,
        n * x <= num * w < (n + 1) * x,
        inexact <==> n * x != num * w,
    ensures
        u > 0,
        nearest(num, u) == if 2 * r > unit || (2 * r == unit && (inexact || k % 2 == 1)) {
            k + 1
        } else {
            k
        },
{
    assert(u > 0) by (nonlinear_arith)
        requires
            u * w == unit * x,
            unit >= 2,
            x > 0,
    ;
    assert((k * unit + r) * x == (k * u) * w + r * x) by (nonlinear_arith)
        requires
            u * w == unit * x,
    ;
    assert((n + 1) * x == n * x + x) by (nonlinear_arith);
    assert((r + 1) * x <= unit * x) by (nonlinear_arith)
        requires
            r + 1 <= unit,
    ;
    assert((r + 1) * x == r * x + x) by (nonlinear_arith);
    assert((num - k * u) * w == num * w - (k * u) * w) by (nonlinear_arith);
    let rest = num - k * u;
    assert(r * x <= rest * w < r * x + x);
    assert(r * x >= 0) by (nonlinear_arith);
    assert(rest >= 0) by (nonlinear_arith)
        requires
            rest * w >= 0,
            w > 0,
    ;
    assert(rest < u) by (nonlinear_arith)
        requires
            rest * w < u * w,
            w > 0,
    ;
    lemma_fundamental_div_mod_converse(num as int, u as int, k as int, rest);
    assert((2 * rest) * w == 2 * (rest * w)) by (nonlinear_arith);
    assert((2 * r) * x == 2 * (r * x)) by (nonlinear_arith);
    if 2 * r > unit {
        assert((2 * r) * x > unit * x) by (nonlinear_arith)
            requires
                2 * r > unit,
                x > 0,
        ;
        assert(2 * rest > u) by (nonlinear_arith)
            requires
                (2 * rest) * w > u * w,
                w > 0,
        ;
    } else if 2 * r == unit {
        assert((2 * r) * x == unit * x);
        if inexact {
            assert(2 * rest > u) by (nonlinear_arith)
                requires
                    (2 * rest) * w > u * w,
                    w > 0,
            ;
        } else {
            assert(2 * rest == u) by (nonlinear_arith)
                requires
                    (2 * rest) * w == u * w,
                    w > 0,
            ;
        }
    } else {
        assert((2 * r + 2) * x <= unit * x) by (nonlinear_arith)
            requires
                2 * r + 2 <= unit,
        ;
        assert((2 * r + 2) * x == (2 * r) * x + 2 * x) by (nonlinear_arith);
        assert(2 * rest < u) by (nonlinear_arith)
            requires
                (2 * rest) * w < u * w,
                w > 0,
        ;
    }
}

/// The spacing where `num / den` lies, from the bits of `n`.
proof fn lemma_spacing_from_bits(n: nat, e: int, inexact: bool, num: nat, den: nat, b: nat, j: nat)
    requires
        den > 0,
        -500 <= e,
        lies_at(n, e, inexact, num, den),
        pow2(b) <= n < pow2(b + 1),
        j == if b - 23 + e >= 0 {
            b - 23 + e
        } else {
            0
        },
    ensures
        spacing(num / den) == pow2(j),
{
    let w = pow2(500);
    let p = pow2((e + 500) as nat);
    let x = p * den;
    lemma_pow2_pos(500);
    lemma_pow2_pos((e + 500) as nat);
    assert(x > 0) by (nonlinear_arith)
        requires
            x == p * den,
            p > 0,
            den > 0,
    ;
    lemma_pow2_adds(b, (e + 500) as nat);
    lemma_pow2_adds(b + 1, (e + 500) as nat);
    assert(pow2(b) * x <= n * x) by (nonlinear_arith)
        requires
            pow2(b) <= n,
            x > 0,
    ;
    assert((n + 1) * x <= pow2(b + 1) * x) by (nonlinear_arith)
        requires
            n + 1 <= pow2(b + 1),
    ;
    assert(pow2(b) * (p * den) == (pow2(b) * p) * den) by (nonlinear_arith);
    assert(pow2(b + 1) * (p * den) == (pow2(b + 1) * p) * den) by (nonlinear_arith);
    let low = pow2((b + (e + 500)) as nat);
    let high = pow2((b + 1 + (e + 500)) as nat);
    assert(low * den <= num * w < high * den);
    lemma_fundamental_div_mod(num as int, den as int);
    let q = num / den;
    assert(den * q <= num < den * (q + 1)) by (nonlinear_arith)
        requires
            num == den * q + num % den,
            0 <= num % den < den,
    ;
    lemma2_to64();
    if b - 23 + e >= 0 {
        lemma_pow2_adds(23 + j, 500);
        lemma_pow2_adds(24 + j, 500);
        lemma_pow2_adds(23, j);
        lemma_pow2_adds(24, j);
        let s = pow2(j);
        assert(low == (0x80_0000 * s) * w);
        assert(high == (0x100_0000 * s) * w);
        assert((0x80_0000 * s) < q + 1) by (nonlinear_arith)
            requires
                ((0x80_0000 * s) * w) * den <= num * w,
                num < den * (q + 1),
                w > 0,
                den > 0,
        ;
        assert(q < 0x100_0000 * s) by (nonlinear_arith)
            requires
                num * w < ((0x100_0000 * s) * w) * den,
                den * q <= num,
                w > 0,
                den > 0,
        ;
        lemma_spacing_at(q, j);
    } else {
        if b + 1 + (e + 500) < 523 {
            lemma_pow2_strictly_increases((b + 1 + (e + 500)) as nat, 523);
        }
        lemma_pow2_adds(23, 500);
        assert(high <= 0x80_0000 * w);
        assert(q < 0x80_0000) by (nonlinear_arith)
            requires
                num * w < high * den,
                high <= 0x80_0000 * w,
                den * q <= num,
                w > 0,
                den > 0,
        ;
    }
}

/// Computes a power of two.
fn power(k: u32) -> (p: u128)
    requires
        k <= 110,
    ensures
        p == pow2(k as nat),
        p >= 1,
        p <= 0x4000_0000_0000_0000_0000_0000_0000,
{
    let mut p: u128 = 1;
    let mut i: u32 = 0;
    proof {
        lemma2_to64();
    }
    while i < k
        invariant
            i <= k <= 110,
            p == pow2(i as nat),
        decreases k - i,
    {
        proof {
            lemma_pow2_unfold((i + 1) as nat);
            lemma_pow2_strictly_increases(i as nat, 110);
            lemma2_to64();
            lemma_pow2_adds(64, 32);
            lemma_pow2_adds(96, 14);
        }
        p = p * 2;
        i = i + 1;
    }
    proof {
        lemma2_to64();
        lemma_pow2_adds(64, 32);
        lemma_pow2_adds(96, 14);
        if k < 110 {
            lemma_pow2_strictly_increases(k as nat, 110);
        }
        lemma_pow2_pos(k as nat);
    }
    p
}

/// Computes [`floor_sqrt`].
fn root(n: u128) -> (s: u128)
    requires
        n < 0x400_0000_0000_0000_0000_0000_0000_0000,
    ensures
        s == floor_sqrt(n as nat),
        s < 0x8000_0000_0000_0000,
        s * s <= n < (s + 1) * (s + 1),
{
    let mut low: u128 = 0;
    let mut high: u128 = 0x8000_0000_0000_0000;
    assert(0x8000_0000_0000_0000 * 0x8000_0000_0000_0000 > n) by (nonlinear_arith)
        requires
            n < 0x400_0000_0000_0000_0000_0000_0000_0000,
    ;
    while high - low > 1
        invariant
            low < high <= 0x8000_0000_0000_0000,
            low * low <= n < high * high,
        decreases high - low,
    {
        let mid: u128 = (low + high) / 2;
        assert(mid * mid < 0x4000_0000_0000_0000_0000_0000_0000_0000) by (nonlinear_arith)
            requires
                mid < 0x8000_0000_0000_0000,
        ;
        if mid * mid <= n {
            low = mid;
        } else {
            high = mid;
        }
    }
    proof {
        assert(high == low + 1);
        lemma_floor_sqrt_unique(n as nat, low as nat);
    }
    low
}

/// How a number is held: a finite one as `sig` times 2^exp units.
#[derive(Clone, Copy)]
enum Repr {
    Nan,
    Infinite { negative: bool },
    Finite { negative: bool, sig: u32, exp: u32 },
}

/// A number.
#[derive(Clone, Copy)]
pub struct Num {
    repr: Repr,
}

impl View for Num {
    type V = Value;

    closed spec fn view(&self) -> Value {
        match self.repr {
            Repr::Nan => Value::Nan,
            Repr::Infinite { negative } => Value::Infinite { negative },
            Repr::Finite { negative, sig, exp } => Value::Finite {
                negative,
                units: sig as nat * pow2(exp as nat),
            },
        }
    }
}

/// Whether 24 bits times 2^exp are the one way to write a number.
spec fn is_normal(sig: u32, exp: u32) -> bool {
    sig < SIGNIFICAND && exp <= 253 && (exp > 0 ==> sig >= 0x80_0000)
}

proof fn lemma_normal_is_exact(negative: bool, sig: u32, exp: u32)
    requires
        is_normal(sig, exp),
    ensures
        exact(Value::Finite { negative, units: sig as nat * pow2(exp as nat) }),
{
    lemma_shifted_on_grid(sig as nat, exp as nat);
    lemma_below_top(sig as nat, exp as nat);
}

impl Num {
    pub closed spec fn is_held(self) -> bool {
        self.repr matches Repr::Finite { negative, sig, exp } ==> is_normal(sig, exp)
    }

    /// Every finite number has at most 24 significant bits and is not too large.
    #[verifier::type_invariant]
    pub open spec fn is_exact(self) -> bool {
        self.is_held() && exact(self@)
    }

    fn finite(negative: bool, sig: u32, exp: u32) -> (r: Num)
        requires
            is_normal(sig, exp),
        ensures
            r@ == (Value::Finite { negative, units: sig as nat * pow2(exp as nat) }),
    {
        proof {
            lemma_normal_is_exact(negative, sig, exp);
        }
        Num { repr: Repr::Finite { negative, sig, exp } }
    }

    fn infinite(negative: bool) -> (r: Num)
        ensures
            r@ == (Value::Infinite { negative }),
    {
        Num { repr: Repr::Infinite { negative } }
    }

    fn nan() -> (r: Num)
        ensures
            r@ == Value::Nan,
    {
        Num { repr: Repr::Nan }
    }

    fn zero(negative: bool) -> (r: Num)
        ensures
            r@ == (Value::Finite { negative, units: 0 }),
    {
        proof {
            assert(0 * pow2(0) == 0);
        }
        Num::finite(negative, 0, 0)
    }

    /// The number that was rounded to `k` times 2^j.
    fn settle(
        negative: bool,
        k: u128,
        j: u32,
        Ghost(num): Ghost<nat>,
        Ghost(den): Ghost<nat>,
    ) -> (r: Num)
        requires
            k <= SIGNIFICAND,
            j <= 1000,
            j > 0 ==> k >= 0x80_0000,
            round24(num, den) == k * pow2(j as nat),
        ensures
            r@ == rounded(negative, num, den),
    {
        let carried = k == SIGNIFICAND;
        let sig: u32 = if carried {
            0x80_0000
        } else {
            k as u32
        };
        let exp: u32 = if carried {
            j + 1
        } else {
            j
        };
        proof {
            lemma_pow2_unfold((j + 1) as nat);
            assert(sig * pow2(exp as nat) == k * pow2(j as nat)) by {
                if carried {
                    assert(0x80_0000 * (2 * pow2(j as nat)) == 0x100_0000 * pow2(j as nat));
                }
            }
        }
        if exp > 253 {
            proof {
                lemma2_to64();
                lemma_pow2_adds(23, 254);
                if exp > 254 {
                    lemma_pow2_strictly_increases(254, exp as nat);
                }
                assert(sig * pow2(exp as nat) >= 0x80_0000 * pow2(254)) by (nonlinear_arith)
                    requires
                        sig >= 0x80_0000,
                        pow2(exp as nat) >= pow2(254),
                ;
            }
            Num::infinite(negative)
        } else {
            proof {
                lemma_below_top(sig as nat, exp as nat);
            }
            Num::finite(negative, sig, exp)
        }
    }

    /// The number nearest to `num / den`, which lies at `n` times 2^e.
    fn pack(
        negative: bool,
        n: u128,
        e: i32,
        inexact: bool,
        Ghost(num): Ghost<nat>,
        Ghost(den): Ghost<nat>,
    ) -> (r: Num)
        requires
            den > 0,
            n < 0x10_0000_0000_0000_0000_0000_0000,
            -400 <= e <= 400,
            lies_at(n as nat, e as int, inexact, num, den),
            inexact ==> n >= 0x200_0000,
        ensures
            r@ == rounded(negative, num, den),
    {
        let ghost w = pow2(500);
        let ghost p = pow2((e + 500) as nat);
        let ghost x = p * den;
        proof {
            lemma_pow2_pos(500);
            lemma_pow2_pos((e + 500) as nat);
            assert(x > 0) by (nonlinear_arith)
                requires
                    x == p * den,
                    p > 0,
                    den > 0,
            ;
        }
        if n == 0 {
            proof {
                assert(n as nat * x == 0) by (nonlinear_arith)
                    requires
                        n == 0,
                ;
                assert(1 * x == x);
                assert(num == 0) by (nonlinear_arith)
                    requires
                        num * w == 0,
                        w > 0,
                ;
                lemma_rounded_zero(negative, den);
            }
            return Num::zero(negative);
        }
        let mut b: u32 = 0;
        let mut bound: u128 = 2;
        proof {
            lemma2_to64();
        }
        while n >= bound
            invariant
                n < 0x10_0000_0000_0000_0000_0000_0000,
                b <= 99,
                pow2(b as nat) <= n,
                bound == pow2((b + 1) as nat),
                bound <= 0x10_0000_0000_0000_0000_0000_0000,
            decreases 100 - b,
        {
            proof {
                lemma_pow2_unfold((b + 2) as nat);
                lemma2_to64();
                lemma_pow2_adds(64, 36);
                lemma_pow2_36();
                if b + 2 > 100 {
                    if b + 1 > 100 {
                        lemma_pow2_strictly_increases(100, (b + 1) as nat);
                    }
                    assert(false);
                }
                if b + 2 < 100 {
                    lemma_pow2_strictly_increases((b + 2) as nat, 100);
                }
            }
            bound = bound * 2;
            b = b + 1;
        }
        let lead: i32 = b as i32 - 23 + e;
        let j: i32 = if lead >= 0 {
            lead
        } else {
            0
        };
        let drop: i32 = j - e;
        let ghost u = den * pow2(j as nat);
        proof {
            lemma_spacing_from_bits(
                n as nat,
                e as int,
                inexact,
                num,
                den,
                b as nat,
                j as nat,
            );
            lemma_pow2_pos(j as nat);
        }
        if drop <= 0 {
            proof {
                lemma2_to64();
                if inexact && b < 25 {
                    if b + 1 < 25 {
                        lemma_pow2_strictly_increases((b + 1) as nat, 25);
                    }
                    assert(false);
                }
            }
            let up: u32 = (-drop) as u32;
            assert(up <= 23);
            let lift: u128 = power(up);
            proof {
                lemma_lifted_bits(n as nat, b as nat, up as nat);
            }
            let k: u128 = n * lift;
            proof {
                lemma_pow2_adds(up as nat, (j + 500) as nat);
                lemma_pow2_adds(j as nat, 500);
                lemma_exact_multiple(num, w, den, n as nat, lift as nat, pow2(j as nat), p);
            }
            Num::settle(negative, k, j as u32, Ghost(num), Ghost(den))
        } else if drop > 101 {
            let ghost unit = pow2(drop as nat);
            proof {
                lemma2_to64();
                lemma_pow2_adds(64, 36);
                lemma_pow2_36();
                lemma_pow2_strictly_increases(101, drop as nat);
                lemma_pow2_unfold(101);
                lemma_pow2_unfold(drop as nat);
                lemma_pow2_adds(drop as nat, (e + 500) as nat);
                lemma_pow2_adds(j as nat, 500);
                lemma_whole_units(den, pow2(j as nat), w, unit, p);
                lemma_nearest(num, w, x, u, n as nat, unit, 0, n as nat, inexact);
                assert(0 * pow2(j as nat) == 0);
            }
            Num::settle(negative, 0, j as u32, Ghost(num), Ghost(den))
        } else {
            let unit: u128 = power(drop as u32);
            let k: u128 = n / unit;
            let r: u128 = n % unit;
            let up: bool = 2 * r > unit || (2 * r == unit && (inexact || k % 2 == 1));
            proof {
                lemma_pow2_unfold(drop as nat);
                lemma_fundamental_div_mod(n as int, unit as int);
                assert(n == k * unit + r) by (nonlinear_arith)
                    requires
                        n == unit * k + r,
                ;
                lemma_pow2_adds(drop as nat, (e + 500) as nat);
                lemma_pow2_adds(j as nat, 500);
                lemma_whole_units(den, pow2(j as nat), w, unit as nat, p);
                lemma_nearest(
                    num,
                    w,
                    x,
                    u,
                    n as nat,
                    unit as nat,
                    k as nat,
                    r as nat,
                    inexact,
                );
                lemma_dropped_bits(n as nat, b as nat, drop as nat, k as nat, r as nat);
            }
            let rounded_up: u128 = if up {
                k + 1
            } else {
                k
            };
            Num::settle(negative, rounded_up, j as u32, Ghost(num), Ghost(den))
        }
    }
}

proof fn lemma_pow2_36()
    ensures
        pow2(36) == 0x10_0000_0000,
{
    lemma2_to64();
    lemma_pow2_adds(32, 4);
}

/// Bits that are shifted up to the place of the leading one.
proof fn lemma_lifted_bits(n: nat, b: nat, up: nat)
    requires
        pow2(b) <= n < pow2(b + 1),
        b + up <= 23,
    ensures
        n * pow2(up) < SIGNIFICAND,
        b + up == 23 ==> n * pow2(up) >= 0x80_0000,
{
    lemma2_to64();
    lemma_pow2_pos(up);
    lemma_pow2_adds(b, up);
    lemma_pow2_adds(b + 1, up);
    if b + 1 + up < 24 {
        lemma_pow2_strictly_increases((b + 1 + up) as nat, 24);
    }
    assert(n * pow2(up) < pow2(b + 1) * pow2(up)) by (nonlinear_arith)
        requires
            n < pow2(b + 1),
            pow2(up) > 0,
    ;
    assert(pow2(b) * pow2(up) <= n * pow2(up)) by (nonlinear_arith)
        requires
            pow2(b) <= n,
    ;
}

/// Bits that are left once the lowest are dropped.
proof fn lemma_dropped_bits(n: nat, b: nat, drop: nat, k: nat, r: nat)
    requires
        pow2(b) <= n < pow2(b + 1),
        n == k * pow2(drop) + r,
        r < pow2(drop),
        b <= drop + 23,
    ensures
        k < SIGNIFICAND,
        b == drop + 23 ==> k >= 0x80_0000,
{
    lemma2_to64();
    let unit = pow2(drop);
    lemma_pow2_pos(drop);
    lemma_pow2_adds(24, drop);
    lemma_pow2_adds(23, drop);
    if b + 1 < drop + 24 {
        lemma_pow2_strictly_increases((b + 1) as nat, (drop + 24) as nat);
    }
    assert(k < 0x100_0000) by (nonlinear_arith)
        requires
            k * unit + r < 0x100_0000 * unit,
            r >= 0,
            unit > 0,
    ;
    if b == drop + 23 {
        assert(k >= 0x80_0000) by (nonlinear_arith)
            requires
                k * unit + r >= 0x80_0000 * unit,
                r < unit,
                unit > 0,
        ;
    }
}

/// A multiple of 2^j that is known exactly.
proof fn lemma_exact_multiple(
    num: nat,
    w: nat,
    den: nat,
    n: nat,
    lift: nat,
    step: nat,
    p: nat,
)
    requires
        w > 0,
        den > 0,
        step > 0,
        p == lift * (step * w),
        n * (p * den) == num * w,
        spacing(num / den) == step,
    ensures
        round24(num, den) == (n * lift) * step,
{
    let u = den * step;
    let k = n * lift;
    assert(u > 0) by (nonlinear_arith)
        requires
            u == den * step,
            den > 0,
            step > 0,
    ;
    assert(n * ((lift * (step * w)) * den) == ((n * lift) * (den * step)) * w) by (nonlinear_arith);
    assert(num == k * u) by (nonlinear_arith)
        requires
            num * w == (k * u) * w,
            w > 0,
    ;
    lemma_fundamental_div_mod_converse(num as int, u as int, k as int, 0);
}

/// Units of one size made up of smaller ones.
proof fn lemma_whole_units(den: nat, step: nat, w: nat, unit: nat, p: nat)
    requires
        unit * p == step * w,
    ensures
        (den * step) * w == unit * (p * den),
{
    assert((den * step) * w == (step * w) * den) by (nonlinear_arith);
    assert(unit * (p * den) == (unit * p) * den) by (nonlinear_arith);
}

/// A number that is known exactly.
proof fn lemma_lies_exactly(n: nat, e: int, num: nat, den: nat)
    requires
        den > 0,
        -500 <= e,
        n * (pow2((e + 500) as nat) * den) == num * pow2(500),
    ensures
        lies_at(n, e, false, num, den),
{
    let x = pow2((e + 500) as nat) * den;
    lemma_pow2_pos((e + 500) as nat);
    assert(n * x < (n + 1) * x) by (nonlinear_arith)
        requires
            x == pow2((e + 500) as nat) * den,
            pow2((e + 500) as nat) > 0,
            den > 0,
    ;
}

/// A sum of two numbers whose powers are not far apart.
proof fn lemma_sum_lies(n: nat, e: nat)
    ensures
        lies_at(n, e as int, false, n * pow2(e), 1),
{
    lemma_pow2_adds(e, 500);
    assert(n * ((pow2(e) * pow2(500)) * 1) == (n * pow2(e)) * pow2(500)) by (nonlinear_arith);
    lemma_lies_exactly(n, e as int, n * pow2(e), 1);
}

/// Two numbers with a common power.
proof fn lemma_aligned(m: nat, exp: nat, other: nat)
    requires
        other <= exp,
    ensures
        m * pow2(exp) == (m * pow2((exp - other) as nat)) * pow2(other),
{
    lemma_pow2_adds((exp - other) as nat, other);
    assert(m * (pow2((exp - other) as nat) * pow2(other)) == (m * pow2((exp - other) as nat))
        * pow2(other)) by (nonlinear_arith);
}

/// A sum of two numbers of which one is much smaller.
proof fn lemma_far_sum_lies(m: nat, exp: nat, small: nat, other: nat, same: bool)
    requires
        exp > other + 64,
        m >= 0x80_0000,
        0 < small < SIGNIFICAND,
    ensures
        small * pow2(other) < m * pow2(exp),
        same ==> lies_at(
            m * 256,
            exp - 8,
            true,
            m * pow2(exp) + small * pow2(other),
            1,
        ),
        !same ==> lies_at(
            (m * 256 - 1) as nat,
            exp - 8,
            true,
            (m * pow2(exp) - small * pow2(other)) as nat,
            1,
        ),
{
    let q = pow2((exp - 8) as nat);
    let w = pow2(500);
    let tiny = small * pow2(other);
    lemma2_to64();
    lemma_pow2_pos(other);
    lemma_pow2_pos(500);
    lemma_pow2_pos((exp - 8) as nat);
    lemma_pow2_adds(8, (exp - 8) as nat);
    lemma_pow2_adds(24, other);
    lemma_pow2_adds((exp - 8) as nat, 500);
    lemma_pow2_strictly_increases((24 + other) as nat, (exp - 8) as nat);
    assert(0 < tiny < q) by (nonlinear_arith)
        requires
            tiny == small * pow2(other),
            0 < small < 0x100_0000,
            0x100_0000 * pow2(other) < q,
            pow2(other) > 0,
    ;
    let whole = m * pow2(exp);
    assert(whole == (m * 256) * q) by (nonlinear_arith)
        requires
            whole == m * pow2(exp),
            pow2(exp) == 256 * q,
    ;
    assert((m * 256) * q >= q) by (nonlinear_arith)
        requires
            m >= 1,
    ;
    assert(0 < tiny * w < q * w) by (nonlinear_arith)
        requires
            0 < tiny < q,
            w > 0,
    ;
    let x = (q * w) * 1;
    let n = m * 256;
    assert(n * x == whole * w) by (nonlinear_arith)
        requires
            whole == n * q,
            x == (q * w) * 1,
    ;
    assert((n + 1) * x == n * x + x) by (nonlinear_arith);
    assert((n - 1) * x == n * x - x) by (nonlinear_arith);
    assert((whole + tiny) * w == whole * w + tiny * w) by (nonlinear_arith);
    assert((whole - tiny) * w == whole * w - tiny * w) by (nonlinear_arith);
    if !same {
        let k = (n - 1) as nat;
        let rest = (whole - tiny) as nat;
        assert(k * x == n * x - x);
        assert((k + 1) * x == n * x) by (nonlinear_arith)
            requires
                k + 1 == n,
        ;
        assert(rest * w == whole * w - tiny * w);
        assert(lies_at(k, exp - 8, true, rest, 1));
    } else {
        assert(lies_at(n, exp - 8, true, whole + tiny, 1));
    }
}

proof fn lemma_product_lies(m: nat, a: nat, n: nat, b: nat)
    requires
        a + b >= 0,
    ensures
        lies_at(m * n, a + b - 149, false, (m * pow2(a)) * (n * pow2(b)), one()),
{
    let num = (m * pow2(a)) * (n * pow2(b));
    let w = pow2(500);
    lemma_pow2_adds(a, b);
    lemma_pow2_adds((a + b + 351) as nat, 149);
    lemma_pow2_adds(a + b, 500);
    lemma_pow2_pos(149);
    assert(num == (m * n) * (pow2(a) * pow2(b))) by (nonlinear_arith)
        requires
            num == (m * pow2(a)) * (n * pow2(b)),
    ;
    assert((m * n) * (pow2(a + b) * w) == ((m * n) * pow2(a + b)) * w) by (nonlinear_arith);
    lemma_lies_exactly(m * n, a + b - 149, num, one());
}

/// A quotient, from the quotient `k` and remainder `r` of the significands.
proof fn lemma_quotient_lies(m: nat, a: nat, n: nat, b: nat, k: nat, r: nat)
    requires
        n > 0,
        b <= 400,
        m * pow2(50) == k * n + r,
        r < n,
    ensures
        n * pow2(b) > 0,
        lies_at(k, a - b + 99, r != 0, (m * pow2(a)) * one(), n * pow2(b)),
{
    let w = pow2(500);
    let num = (m * pow2(a)) * one();
    let den = n * pow2(b);
    let p = pow2((a - b + 99 + 500) as nat);
    let c = pow2((a + 599) as nat);
    let x = p * den;
    lemma_pow2_pos(b);
    lemma_pow2_pos((a + 599) as nat);
    lemma_pow2_adds((a - b + 99 + 500) as nat, b);
    assert(den > 0) by (nonlinear_arith)
        requires
            den == n * pow2(b),
            n > 0,
            pow2(b) > 0,
    ;
    assert(x == n * c) by (nonlinear_arith)
        requires
            x == p * (n * pow2(b)),
            c == p * pow2(b),
    ;
    lemma_pow2_adds(a, 149);
    lemma_pow2_adds((a + 149) as nat, 500);
    lemma_pow2_adds(50, (a + 599) as nat);
    assert(num * w == m * ((pow2(a) * one()) * w)) by (nonlinear_arith)
        requires
            num == (m * pow2(a)) * one(),
    ;
    assert(num * w == m * (pow2(50) * c));
    assert(m * (pow2(50) * c) == (m * pow2(50)) * c) by (nonlinear_arith);
    assert((k * n + r) * c == k * (n * c) + r * c) by (nonlinear_arith);
    assert((k + 1) * x == k * x + x) by (nonlinear_arith);
    assert(0 <= r * c < n * c) by (nonlinear_arith)
        requires
            0 <= r < n,
            c > 0,
    ;
    assert(r * c == 0 <==> r == 0) by (nonlinear_arith)
        requires
            c > 0,
            r >= 0,
    ;
}

/// A square root, from the root `t` of a significand that was shifted to an even
/// power.
proof fn lemma_root_lies(units: nat, v: nat, m: nat, t: nat)
    requires
        units * one() == v * pow2(2 * m),
        t * t <= v < (t + 1) * (t + 1),
    ensures
        ({
            let n = units * one();
            let s = floor_sqrt(n);
            lies_at(
                t,
                m as int,
                t * t != v,
                2 * s + if s * s == n { 0nat } else { 1nat },
                2,
            )
        }),
{
    let n = units * one();
    let h = pow2(m);
    lemma_pow2_pos(m);
    lemma_pow2_pos(500);
    lemma_pow2_adds(m, m);
    assert(m + m == 2 * m);
    assert(n == v * (h * h));
    let low = t * h;
    let high = (t + 1) * h;
    assert(low * low == (t * t) * (h * h)) by (nonlinear_arith)
        requires
            low == t * h,
    ;
    assert(high * high == ((t + 1) * (t + 1)) * (h * h)) by (nonlinear_arith)
        requires
            high == (t + 1) * h,
    ;
    assert(h * h > 0) by (nonlinear_arith)
        requires
            h > 0,
    ;
    assert(low * low <= n) by (nonlinear_arith)
        requires
            low * low == (t * t) * (h * h),
            n == v * (h * h),
            t * t <= v,
    ;
    assert(n < high * high) by (nonlinear_arith)
        requires
            high * high == ((t + 1) * (t + 1)) * (h * h),
            n == v * (h * h),
            v < (t + 1) * (t + 1),
            h * h > 0,
    ;
    lemma_floor_sqrt_exists(n);
    let s = floor_sqrt(n);
    assert(s * s <= n < (s + 1) * (s + 1));
    assert(low <= s) by (nonlinear_arith)
        requires
            low * low <= n,
            n < (s + 1) * (s + 1),
            low >= 0,
            s >= 0,
    ;
    assert(s < high) by (nonlinear_arith)
        requires
            s * s <= n,
            n < high * high,
            high >= 0,
            s >= 0,
    ;
    let num = 2 * s + if s * s == n { 0nat } else { 1nat };
    if t * t == v {
        assert(low * low == n);
        lemma_floor_sqrt_at(n, low);
        assert(num == 2 * low);
    } else {
        assert(low * low < n) by (nonlinear_arith)
            requires
                low * low == (t * t) * (h * h),
                n == v * (h * h),
                t * t < v,
                h * h > 0,
        ;
        if s == low {
            assert(s * s != n);
        }
        assert(num != 2 * low);
    }
    let w = pow2(500);
    lemma_pow2_adds(m, 500);
    let x = (h * w) * 2;
    assert(t * x == (2 * low) * w) by (nonlinear_arith)
        requires
            x == (h * w) * 2,
            low == t * h,
    ;
    assert((t + 1) * x == (2 * high) * w) by (nonlinear_arith)
        requires
            x == (h * w) * 2,
            high == (t + 1) * h,
    ;
    assert((2 * low) * w <= num * w) by (nonlinear_arith)
        requires
            2 * low <= num,
    ;
    assert(num * w < (2 * high) * w) by (nonlinear_arith)
        requires
            num < 2 * high,
            w > 0,
    ;
    assert((2 * low) * w == num * w ==> 2 * low == num) by (nonlinear_arith)
        requires
            w > 0,
    ;
}

/// The root of a square.
proof fn lemma_floor_sqrt_at(n: nat, s: nat)
    requires
        s * s == n,
    ensures
        floor_sqrt(n) == s,
        n < (s + 1) * (s + 1),
{
    assert(n < (s + 1) * (s + 1)) by (nonlinear_arith)
        requires
            s * s == n,
            s >= 0,
    ;
    lemma_floor_sqrt_unique(n, s);
}

/// Every integer has a root.
pub proof fn lemma_floor_sqrt_exists(n: nat)
    ensures
        floor_sqrt(n) * floor_sqrt(n) <= n < (floor_sqrt(n) + 1) * (floor_sqrt(n) + 1),
    decreases n,
{
    if n == 0 {
        let z: nat = 0;
        assert(z * z == 0) by (nonlinear_arith)
            requires
                z == 0,
        ;
        lemma_floor_sqrt_at(n, z);
    } else {
        let m = (n - 1) as nat;
        lemma_floor_sqrt_exists(m);
        let s = floor_sqrt(m);
        if n < (s + 1) * (s + 1) {
            lemma_floor_sqrt_unique(n, s);
        } else {
            let t = s + 1;
            assert(t * t == n);
            lemma_floor_sqrt_at(n, t);
        }
    }
}

/// Of two numbers the one with the greater power is the greater.
proof fn lemma_greater_power(sig: u32, exp: u32, other_sig: u32, other_exp: u32)
    requires
        is_normal(sig, exp),
        is_normal(other_sig, other_exp),
        exp > other_exp,
    ensures
        other_sig * pow2(other_exp as nat) < sig * pow2(exp as nat),
{
    let p = pow2(other_exp as nat);
    lemma_pow2_pos(other_exp as nat);
    lemma_pow2_unfold((other_exp + 1) as nat);
    if exp > other_exp + 1 {
        lemma_pow2_strictly_increases((other_exp + 1) as nat, exp as nat);
    }
    assert(other_sig * p < sig * pow2(exp as nat)) by (nonlinear_arith)
        requires
            other_sig < 0x100_0000,
            sig >= 0x80_0000,
            pow2(exp as nat) >= 2 * p,
            p > 0,
    ;
}

/// Compares two sizes.
fn size_at_most(sig: u32, exp: u32, other_sig: u32, other_exp: u32) -> (b: bool)
    requires
        is_normal(sig, exp),
        is_normal(other_sig, other_exp),
    ensures
        b == (sig * pow2(exp as nat) <= other_sig * pow2(other_exp as nat)),
{
    if exp < other_exp {
        proof {
            lemma_greater_power(other_sig, other_exp, sig, exp);
        }
        true
    } else if other_exp < exp {
        proof {
            lemma_greater_power(sig, exp, other_sig, other_exp);
        }
        false
    } else {
        proof {
            let p = pow2(exp as nat);
            lemma_pow2_pos(exp as nat);
            assert(sig <= other_sig <==> sig * p <= other_sig * p) by (nonlinear_arith)
                requires
                    p > 0,
            ;
        }
        sig <= other_sig
    }
}

/// The sum of two finite numbers, the first with the greater power.
fn add_finite(s: bool, m: u32, a: u32, t: bool, n: u32, b: u32) -> (r: Num)
    requires
        is_normal(m, a),
        is_normal(n, b),
        a >= b,
    ensures
        r@ == add_spec(
            Value::Finite { negative: s, units: m as nat * pow2(a as nat) },
            Value::Finite { negative: t, units: n as nat * pow2(b as nat) },
        ),
{
    let ghost big = m as nat * pow2(a as nat);
    let ghost small = n as nat * pow2(b as nat);
    let ghost q = pow2(b as nat);
    proof {
        lemma_pow2_pos(a as nat);
        lemma_pow2_pos(b as nat);
        assert(big == 0 <==> m == 0) by (nonlinear_arith)
            requires
                big == m as nat * pow2(a as nat),
                pow2(a as nat) > 0,
        ;
        assert(small == 0 <==> n == 0) by (nonlinear_arith)
            requires
                small == n as nat * q,
                q > 0,
        ;
    }
    let gap: u32 = a - b;
    if gap <= 64 {
        let lift: u128 = power(gap);
        proof {
            lemma2_to64();
            if gap < 64 {
                lemma_pow2_strictly_increases(gap as nat, 64);
            }
            assert(m * lift < 0x100_0000 * 0x1_0000_0000_0000_0001) by (nonlinear_arith)
                requires
                    m < 0x100_0000,
                    lift <= 0x1_0000_0000_0000_0000,
            ;
            lemma_aligned(m as nat, a as nat, b as nat);
        }
        let high: u128 = m as u128 * lift;
        let low: u128 = n as u128;
        assert(big == high * q);
        if s == t {
            let sum: u128 = high + low;
            proof {
                assert(sum * q == big + small) by (nonlinear_arith)
                    requires
                        sum == high + low,
                        big == high * q,
                        small == low * q,
                ;
                lemma_sum_lies(sum as nat, b as nat);
            }
            if sum == 0 {
                assert(0 * q == 0);
                Num::zero(s)
            } else {
                assert(big + small > 0) by (nonlinear_arith)
                    requires
                        sum * q == big + small,
                        sum > 0,
                        q > 0,
                ;
                Num::pack(s, sum, b as i32, false, Ghost(big + small), Ghost(1))
            }
        } else if high == low {
            Num::zero(false)
        } else if high > low {
            let rest: u128 = high - low;
            proof {
                assert(rest * q == big - small) by (nonlinear_arith)
                    requires
                        rest == high - low,
                        big == high * q,
                        small == low * q,
                ;
                assert(rest * q > 0) by (nonlinear_arith)
                    requires
                        rest > 0,
                        q > 0,
                ;
                lemma_sum_lies(rest as nat, b as nat);
            }
            Num::pack(s, rest, b as i32, false, Ghost((big - small) as nat), Ghost(1))
        } else {
            let rest: u128 = low - high;
            proof {
                assert(rest * q == small - big) by (nonlinear_arith)
                    requires
                        rest == low - high,
                        big == high * q,
                        small == low * q,
                ;
                assert(rest * q > 0) by (nonlinear_arith)
                    requires
                        rest > 0,
                        q > 0,
                ;
                lemma_sum_lies(rest as nat, b as nat);
            }
            Num::pack(t, rest, b as i32, false, Ghost((small - big) as nat), Ghost(1))
        }
    } else if n == 0 {
        proof {
            lemma_normal_is_exact(s, m, a);
            lemma_exact_stays(s, big);
        }
        Num::finite(s, m, a)
    } else {
        proof {
            lemma_far_sum_lies(m as nat, a as nat, n as nat, b as nat, s == t);
        }
        if s == t {
            Num::pack(s, m as u128 * 256, a as i32 - 8, true, Ghost(big + small), Ghost(1))
        } else {
            Num::pack(
                s,
                m as u128 * 256 - 1,
                a as i32 - 8,
                true,
                Ghost((big - small) as nat),
                Ghost(1),
            )
        }
    }
}

impl Num {
    /// The number nearest to `n / d`.
    pub fn ratio(n: u16, d: u16) -> (r: Num)
        requires
            d > 0,
        ensures
            r@ == ratio_spec(n as nat, d as nat),
    {
        let high: u128 = n as u128 * 0x4_0000_0000_0000;
        let k: u128 = high / (d as u128);
        let r: u128 = high % (d as u128);
        proof {
            lemma2_to64();
            lemma_pow2_adds(32, 18);
            lemma_fundamental_div_mod(high as int, d as int);
            assert(n as nat * pow2(50) == k * d + r) by (nonlinear_arith)
                requires
                    high == d * k + r,
                    high == n as nat * pow2(50),
            ;
            lemma_quotient_lies(n as nat, 0, d as nat, 0, k as nat, r as nat);
            assert((n as nat * 1) * one() == n as nat * one());
            assert(d as nat * 1 == d as nat);
            if r != 0 {
                lemma_quotient_bound(high as nat, d as nat, k as nat, r as nat);
            }
            lemma_quotient_limit(high as nat, d as nat, k as nat, r as nat);
        }
        Num::pack(false, k, 99, r != 0, Ghost(n as nat * one()), Ghost(d as nat))
    }

    /// The integer `n`.
    pub fn whole(n: u16) -> (r: Num)
        ensures
            r@ == whole_spec(n as nat),
    {
        proof {
            lemma_sum_lies(n as nat, 149);
            lemma_whole_is_exact(n as nat);
            lemma_exact_stays(false, n as nat * one());
        }
        Num::pack(false, n as u128, 149, false, Ghost(n as nat * one()), Ghost(1))
    }

    /// Halfway from `n` to `n + 1`.
    pub fn half_past(n: u16) -> (r: Num)
        ensures
            r@ == half_past_spec(n as nat),
    {
        let halves: u128 = 2 * (n as u128) + 1;
        proof {
            lemma_sum_lies(halves as nat, 148);
            lemma_shifted_on_grid(halves as nat, 148);
            lemma_below_top(halves as nat, 148);
            lemma_exact_stays(false, halves as nat * pow2(148));
        }
        Num::pack(false, halves, 148, false, Ghost(halves as nat * pow2(148)), Ghost(1))
    }

    pub fn plus(self, other: Num) -> (r: Num)
        ensures
            r@ == add_spec(self@, other@),
    {
        proof {
            use_type_invariant(&self);
            use_type_invariant(&other);
        }
        match (self.repr, other.repr) {
            (Repr::Nan, _) => Num::nan(),
            (_, Repr::Nan) => Num::nan(),
            (Repr::Infinite { negative: s }, Repr::Infinite { negative: t }) => if s == t {
                self
            } else {
                Num::nan()
            },
            (Repr::Infinite { .. }, _) => self,
            (_, Repr::Infinite { .. }) => other,
            (
                Repr::Finite { negative: s, sig: m, exp: a },
                Repr::Finite { negative: t, sig: n, exp: b },
            ) => if a >= b {
                add_finite(s, m, a, t, n, b)
            } else {
                add_finite(t, n, b, s, m, a)
            },
        }
    }

    /// The number with the other sign.
    fn opposite(self) -> (r: Num)
        ensures
            r@ == negated(self@),
    {
        proof {
            use_type_invariant(&self);
        }
        match self.repr {
            Repr::Nan => Num::nan(),
            Repr::Infinite { negative } => Num::infinite(!negative),
            Repr::Finite { negative, sig, exp } => Num::finite(!negative, sig, exp),
        }
    }

    pub fn minus(self, other: Num) -> (r: Num)
        ensures
            r@ == sub_spec(self@, other@),
    {
        self.plus(other.opposite())
    }

    pub fn times(self, other: Num) -> (r: Num)
        ensures
            r@ == mul_spec(self@, other@),
    {
        proof {
            use_type_invariant(&self);
            use_type_invariant(&other);
            lemma_pow2_pos(149);
        }
        match (self.repr, other.repr) {
            (Repr::Nan, _) => Num::nan(),
            (_, Repr::Nan) => Num::nan(),
            (Repr::Infinite { negative: s }, Repr::Infinite { negative: t }) => Num::infinite(
                s != t,
            ),
            (Repr::Infinite { negative: s }, Repr::Finite { negative: t, sig, exp }) => {
                proof {
                    lemma_zero_units(sig as nat, exp as nat);
                }
                if sig == 0 {
                    Num::nan()
                } else {
                    Num::infinite(s != t)
                }
            },
            (Repr::Finite { negative: s, sig, exp }, Repr::Infinite { negative: t }) => {
                proof {
                    lemma_zero_units(sig as nat, exp as nat);
                }
                if sig == 0 {
                    Num::nan()
                } else {
                    Num::infinite(s != t)
                }
            },
            (
                Repr::Finite { negative: s, sig: m, exp: a },
                Repr::Finite { negative: t, sig: n, exp: b },
            ) => {
                proof {
                    lemma_product_lies(m as nat, a as nat, n as nat, b as nat);
                    assert(m * n <= 0x100_0000 * 0x100_0000) by (nonlinear_arith)
                        requires
                            m < 0x100_0000,
                            n < 0x100_0000,
                    ;
                }
                Num::pack(
                    s != t,
                    m as u128 * n as u128,
                    a as i32 + b as i32 - 149,
                    false,
                    Ghost((m as nat * pow2(a as nat)) * (n as nat * pow2(b as nat))),
                    Ghost(one()),
                )
            },
        }
    }

    pub fn over(self, other: Num) -> (r: Num)
        ensures
            r@ == div_spec(self@, other@),
    {
        proof {
            use_type_invariant(&self);
            use_type_invariant(&other);
        }
        match (self.repr, other.repr) {
            (Repr::Nan, _) => Num::nan(),
            (_, Repr::Nan) => Num::nan(),
            (Repr::Infinite { .. }, Repr::Infinite { .. }) => Num::nan(),
            (Repr::Infinite { negative: s }, Repr::Finite { negative: t, .. }) => Num::infinite(
                s != t,
            ),
            (Repr::Finite { negative: s, .. }, Repr::Infinite { negative: t }) => Num::zero(s != t),
            (
                Repr::Finite { negative: s, sig: m, exp: a },
                Repr::Finite { negative: t, sig: n, exp: b },
            ) => {
                proof {
                    lemma_zero_units(m as nat, a as nat);
                    lemma_zero_units(n as nat, b as nat);
                }
                if n == 0 {
                    return if m == 0 {
                        Num::nan()
                    } else {
                        Num::infinite(s != t)
                    };
                }
                let high: u128 = m as u128 * 0x4_0000_0000_0000;
                let k: u128 = high / (n as u128);
                let r: u128 = high % (n as u128);
                proof {
                    lemma2_to64();
                    lemma_pow2_adds(32, 18);
                    lemma_fundamental_div_mod(high as int, n as int);
                    assert(m as nat * pow2(50) == k * n + r) by (nonlinear_arith)
                        requires
                            high == n * k + r,
                            high == m as nat * pow2(50),
                    ;
                    lemma_quotient_lies(m as nat, a as nat, n as nat, b as nat, k as nat, r as nat);
                    if r != 0 {
                        lemma_quotient_bound(high as nat, n as nat, k as nat, r as nat);
                    }
                    lemma_quotient_limit(high as nat, n as nat, k as nat, r as nat);
                }
                Num::pack(
                    s != t,
                    k,
                    a as i32 - b as i32 + 99,
                    r != 0,
                    Ghost((m as nat * pow2(a as nat)) * one()),
                    Ghost(n as nat * pow2(b as nat)),
                )
            },
        }
    }

    pub fn sqrt(self) -> (r: Num)
        ensures
            r@ == sqrt_spec(self@),
    {
        proof {
            use_type_invariant(&self);
        }
        match self.repr {
            Repr::Nan => self,
            Repr::Infinite { negative } => if negative {
                Num::nan()
            } else {
                self
            },
            Repr::Finite { negative, sig, exp } => {
                proof {
                    lemma_zero_units(sig as nat, exp as nat);
                }
                if sig == 0 {
                    return self;
                }
                if negative {
                    return Num::nan();
                }
                let shift: u32 = if exp % 2 == 0 {
                    51
                } else {
                    50
                };
                let lift: u128 = power(shift);
                let m: u32 = (exp + 149 - shift) / 2;
                let ghost units = sig as nat * pow2(exp as nat);
                proof {
                    lemma2_to64();
                    lemma_pow2_adds(32, 18);
                    lemma_pow2_adds(32, 19);
                    assert(sig * pow2(shift as nat) <= 0x100_0000 * 0x8_0000_0000_0000)
                        by (nonlinear_arith)
                        requires
                            sig < 0x100_0000,
                            pow2(shift as nat) <= 0x8_0000_0000_0000,
                    ;
                    assert(sig * pow2(shift as nat) >= 0x4_0000_0000_0000) by (nonlinear_arith)
                        requires
                            sig >= 1,
                            pow2(shift as nat) >= 0x4_0000_0000_0000,
                    ;
                }
                let v: u128 = sig as u128 * lift;
                proof {
                    assert(2 * m == exp + 149 - shift);
                    lemma_pow2_adds(exp as nat, 149);
                    lemma_pow2_adds(shift as nat, (2 * m) as nat);
                    assert((sig as nat * pow2(exp as nat)) * one() == sig as nat * (pow2(exp as nat)
                        * one())) by (nonlinear_arith);
                    assert(sig as nat * (pow2(shift as nat) * pow2((2 * m) as nat)) == (sig as nat
                        * pow2(shift as nat)) * pow2((2 * m) as nat)) by (nonlinear_arith);
                    assert(units * one() == v as nat * pow2((2 * m) as nat));
                }
                let t: u128 = root(v);
                let whole = t * t == v;
                let ghost s = floor_sqrt(units * one());
                proof {
                    lemma_root_lies(units, v as nat, m as nat, t as nat);
                    assert(t >= 0x200_0000) by (nonlinear_arith)
                        requires
                            0x4_0000_0000_0000 <= v,
                            v < (t + 1) * (t + 1),
                    ;
                }
                Num::pack(
                    false,
                    t,
                    m as i32,
                    !whole,
                    Ghost(2 * s + if s * s == units * one() { 0nat } else { 1nat }),
                    Ghost(2),
                )
            },
        }
    }

    /// The number without its sign.
    pub fn size_of(self) -> (r: Num)
        ensures
            r@ == size_spec(self@),
    {
        proof {
            use_type_invariant(&self);
        }
        match self.repr {
            Repr::Nan => Num::nan(),
            Repr::Infinite { .. } => Num::infinite(false),
            Repr::Finite { sig, exp, .. } => Num::finite(false, sig, exp),
        }
    }

    pub fn at_most(self, other: Num) -> (b: bool)
        ensures
            b == le(self@, other@),
    {
        proof {
            use_type_invariant(&self);
            use_type_invariant(&other);
        }
        match (self.repr, other.repr) {
            (Repr::Nan, _) => false,
            (_, Repr::Nan) => false,
            (Repr::Infinite { negative: s }, Repr::Infinite { negative: t }) => s || !t,
            (Repr::Infinite { negative: s }, _) => s,
            (_, Repr::Infinite { negative: t }) => !t,
            (
                Repr::Finite { negative: s, sig: m, exp: a },
                Repr::Finite { negative: t, sig: n, exp: b },
            ) => {
                proof {
                    lemma_zero_units(m as nat, a as nat);
                    lemma_zero_units(n as nat, b as nat);
                }
                if s && t {
                    size_at_most(n, b, m, a)
                } else if s {
                    true
                } else if t {
                    m == 0 && n == 0
                } else {
                    size_at_most(m, a, n, b)
                }
            },
        }
    }

    fn is_nan(self) -> (b: bool)
        ensures
            b == (self@ is Nan),
    {
        match self.repr {
            Repr::Nan => true,
            _ => false,
        }
    }

    pub fn less(self, other: Num) -> (b: bool)
        ensures
            b == lt(self@, other@),
    {
        !self.is_nan() && !other.is_nan() && !other.at_most(self)
    }

    pub fn clamp(self, low: Num, high: Num) -> (r: Num)
        ensures
            r@ == clamp_spec(self@, low@, high@),
    {
        if self.less(low) {
            low
        } else if high.less(self) {
            high
        } else {
            self
        }
    }

    /// The lesser of two numbers; what is not a number gives way.
    pub fn min(self, other: Num) -> (r: Num)
        ensures
            r@ == min_spec(self@, other@),
    {
        if self.is_nan() {
            other
        } else if other.is_nan() {
            self
        } else if self.at_most(other) {
            self
        } else {
            other
        }
    }

    /// The integer part as a byte.
    pub fn byte(self) -> (b: u8)
        ensures
            b == byte_spec(self@),
    {
        proof {
            use_type_invariant(&self);
        }
        match self.repr {
            Repr::Nan => 0,
            Repr::Infinite { negative } => if negative {
                0
            } else {
                255
            },
            Repr::Finite { negative, sig, exp } => {
                if negative {
                    return 0;
                }
                if exp >= 149 {
                    proof {
                        lemma_large_integer_part(sig as nat, exp as nat);
                    }
                    return 255;
                }
                let down: u32 = 149 - exp;
                if down > 24 {
                    proof {
                        lemma_no_integer_part(sig as nat, exp as nat);
                    }
                    return 0;
                }
                let unit: u128 = power(down);
                let whole: u128 = sig as u128 / unit;
                proof {
                    lemma_integer_part(sig as nat, exp as nat);
                }
                if whole > 255 {
                    255
                } else {
                    whole as u8
                }
            },
        }
    }
}

proof fn lemma_zero_units(m: nat, a: nat)
    ensures
        m * pow2(a) == 0 <==> m == 0,
{
    lemma_pow2_pos(a);
    assert(m * pow2(a) == 0 <==> m == 0) by (nonlinear_arith)
        requires
            pow2(a) > 0,
    ;
}

/// A quotient of significands has bits to spare.
proof fn lemma_quotient_bound(high: nat, d: nat, k: nat, r: nat)
    requires
        high == d * k + r,
        0 < r < d,
        high > 0 ==> high >= 0x4_0000_0000_0000,
        d < SIGNIFICAND,
    ensures
        k >= 0x200_0000,
{
    assert(d * k >= 0) by (nonlinear_arith);
    assert(k >= 0x200_0000) by (nonlinear_arith)
        requires
            d * k + d > 0x4_0000_0000_0000,
            d < 0x100_0000,
    ;
}

/// And does not outgrow its dividend.
proof fn lemma_quotient_limit(high: nat, d: nat, k: nat, r: nat)
    requires
        high == d * k + r,
        d > 0,
    ensures
        k <= high,
{
    assert(k <= d * k) by (nonlinear_arith)
        requires
            d >= 1,
    ;
}

proof fn lemma_integer_part(sig: nat, exp: nat)
    requires
        exp < 149,
    ensures
        (sig * pow2(exp)) / one() == sig / pow2((149 - exp) as nat),
{
    let p = pow2(exp);
    let d = pow2((149 - exp) as nat);
    lemma_pow2_pos(exp);
    lemma_pow2_pos((149 - exp) as nat);
    lemma_pow2_adds(exp, (149 - exp) as nat);
    lemma_div_denominator((sig * p) as int, p as int, d as int);
    assert((sig * p) / p == sig) by (nonlinear_arith)
        requires
            p > 0,
    ;
}

proof fn lemma_no_integer_part(sig: nat, exp: nat)
    requires
        sig < SIGNIFICAND,
        exp < 125,
    ensures
        (sig * pow2(exp)) / one() == 0,
{
    lemma_integer_part(sig, exp);
    let d = pow2((149 - exp) as nat);
    lemma2_to64();
    lemma_pow2_strictly_increases(24, (149 - exp) as nat);
    lemma_fundamental_div_mod_converse(sig as int, d as int, 0, sig as int);
}

proof fn lemma_large_integer_part(sig: nat, exp: nat)
    requires
        sig >= 0x80_0000,
        exp >= 149,
    ensures
        (sig * pow2(exp)) / one() > 255,
{
    let w = one();
    let p = pow2((exp - 149) as nat);
    lemma_pow2_pos(149);
    lemma_pow2_pos((exp - 149) as nat);
    lemma_pow2_adds((exp - 149) as nat, 149);
    assert(sig * (p * w) == (sig * p) * w) by (nonlinear_arith);
    lemma_fundamental_div_mod_converse(((sig * p) * w) as int, w as int, (sig * p) as int, 0);
    assert(sig * p >= 0x80_0000) by (nonlinear_arith)
        requires
            sig >= 0x80_0000,
            p >= 1,
    ;
}

} // verus!
