//! What the operations on numbers give, in terms of exact arithmetic: each result
//! is the number nearest to the exact one.
use crate::number::{add_spec, byte_spec, clamp_spec, div_spec, floor_sqrt, half_past_spec, le};
use crate::number::{lemma_floor_sqrt_exists, lt, min_spec, mul_spec, nearest, negated, one};
use crate::number::{ratio_spec, round24, rounded, rounded_root, size_spec, spacing, sqrt_spec};
use crate::number::{sub_spec, whole_spec, Value};
use vstd::arithmetic::div_mod::{lemma_div_denominator, lemma_fundamental_div_mod};
use vstd::arithmetic::power2::{
    lemma2_to64, lemma_pow2_adds, lemma_pow2_pos, lemma_pow2_unfold, pow2,
};
use vstd::prelude::*;

verus! {

/// Whether `size` is `k` steps of 2^j, where the step is the last of 24 bits of
/// `n / d`, or a unit, and is no more than half a step away from `n / d`; where it
/// is half a step, `k` is even.
pub open spec fn nearest_by(size: nat, n: nat, d: nat, j: nat, k: nat) -> bool {
    let step = pow2(j);
    &&& size == k * step
    &&& k <= 0x100_0000
    &&& j == 0 || (0x80_0000 * step) * d <= n
    &&& -(step * d) <= 2 * (n - size * d) <= step * d
    &&& 2 * (n - size * d) == step * d || 2 * (n - size * d) == -(step * d) ==> k % 2 == 0
}

/// Whether `size` is the integer of at most 24 significant bits that is nearest to
/// `n / d`.
pub open spec fn nearest_to(size: nat, n: nat, d: nat) -> bool {
    exists|j: nat, k: nat| #[trigger] nearest_by(size, n, d, j, k)
}

/// Whether `v` is the number nearest to `n / d` units with a sign, or infinite where
/// that is too large.
pub open spec fn rounds_to(v: Value, negative: bool, n: nat, d: nat) -> bool {
    exists|size: nat| #[trigger]
        nearest_to(size, n, d) && v == if size < pow2(277) {
            Value::Finite { negative, units: size }
        } else {
            Value::Infinite { negative }
        }
}

/// Spacing is a power of two that leaves 24 bits.
proof fn lemma_spacing_shape(q: nat) -> (j: nat)
    ensures
        spacing(q) == pow2(j),
        q < 0x100_0000 * pow2(j),
        j == 0 || 0x80_0000 * pow2(j) <= q,
    decreases q,
{
    if q < 0x100_0000 {
        lemma2_to64();
        0
    } else {
        let i = lemma_spacing_shape(q / 2);
        lemma_pow2_unfold((i + 1) as nat);
        if i == 0 {
            lemma2_to64();
        }
        i + 1
    }
}

/// Rounding leaves the nearest integer of 24 bits.
pub proof fn lemma_round24(n: nat, d: nat) -> (r: (nat, nat))
    requires
        d > 0,
    ensures
        nearest_by(round24(n, d), n, d, r.0, r.1),
        n / d < 0x100_0000 * pow2(r.0),
{
    let q = n / d;
    let j = lemma_spacing_shape(q);
    let step = pow2(j);
    lemma_pow2_pos(j);
    let unit = d * step;
    assert(unit > 0) by (nonlinear_arith)
        requires
            unit == d * step,
            d > 0,
            step > 0,
    ;
    lemma_fundamental_div_mod(n as int, unit as int);
    lemma_fundamental_div_mod(n as int, d as int);
    lemma_div_denominator(n as int, d as int, step as int);
    let low = n / unit;
    assert(low < 0x100_0000) by (nonlinear_arith)
        requires
            low == q / step,
            q < 0x100_0000 * step,
            step > 0,
    ;
    let k = nearest(n, unit);
    let size = k * step;
    assert(round24(n, d) == size);
    assert(size * d == k * unit) by (nonlinear_arith)
        requires
            size == k * step,
            unit == d * step,
    ;
    assert(step * d == unit) by (nonlinear_arith)
        requires
            unit == d * step,
    ;
    assert((low + 1) * unit == low * unit + unit) by (nonlinear_arith);
    assert(unit * low == low * unit) by (nonlinear_arith);
    if j > 0 {
        assert((0x80_0000 * step) * d <= q * d) by (nonlinear_arith)
            requires
                0x80_0000 * step <= q,
        ;
        assert(d * q == q * d) by (nonlinear_arith);
    }
    assert(nearest_by(size, n, d, j, k));
    (j, k)
}

/// Rounding is to the nearest number, ties to even, and keeps the sign.
pub proof fn rounding_is_to_the_nearest(negative: bool, n: nat, d: nat)
    requires
        d > 0,
    ensures
        rounds_to(rounded(negative, n, d), negative, n, d),
{
    let (j, k) = lemma_round24(n, d);
    assert(nearest_to(round24(n, d), n, d));
}

proof fn lemma_one_nearest(a: nat, j: nat, k: nat, b: nat, i: nat, l: nat, n: nat, d: nat)
    requires
        d > 0,
        j <= i,
        nearest_by(a, n, d, j, k),
        nearest_by(b, n, d, i, l),
    ensures
        a == b,
{
    let step = pow2(j);
    let c = pow2((i - j) as nat);
    lemma_pow2_pos(j);
    lemma_pow2_pos((i - j) as nat);
    lemma_pow2_adds(j, (i - j) as nat);
    let u = step * d;
    assert(u > 0) by (nonlinear_arith)
        requires
            u == step * d,
            step > 0,
            d > 0,
    ;
    assert(a * d == k * u) by (nonlinear_arith)
        requires
            a == k * step,
            u == step * d,
    ;
    assert((step * c) * d == c * u) by (nonlinear_arith)
        requires
            u == step * d,
    ;
    assert(b * d == (l * c) * u) by (nonlinear_arith)
        requires
            b == l * (step * c),
            u == step * d,
    ;
    if i == j {
        lemma2_to64();
        assert(c == 1);
        assert(l * 1 == l);
        if k < l {
            assert(l * u >= k * u + u) by (nonlinear_arith)
                requires
                    l >= k + 1,
                    u > 0,
            ;
            assert(l * u == k * u + u);
            assert(l == k + 1) by (nonlinear_arith)
                requires
                    l * u == k * u + u,
                    u > 0,
            ;
        } else if l < k {
            assert(k * u >= l * u + u) by (nonlinear_arith)
                requires
                    k >= l + 1,
                    u > 0,
            ;
            assert(k * u == l * u + u);
            assert(k == l + 1) by (nonlinear_arith)
                requires
                    k * u == l * u + u,
                    u > 0,
            ;
        }
        assert(k == l);
        assert(step * c == step);
    } else {
        lemma_pow2_unfold((i - j) as nat);
        lemma_pow2_pos((i - j - 1) as nat);
        assert(c >= 2);
        assert((0x80_0000 * (step * c)) * d == (0x80_0000 * c) * u) by (nonlinear_arith)
            requires
                u == step * d,
        ;
        assert(2 * n <= 2 * (k * u) + u);
        assert(2 * (0x80_0000 * c) <= 2 * k + 1) by (nonlinear_arith)
            requires
                (0x80_0000 * c) * u <= n,
                2 * n <= 2 * (k * u) + u,
                u > 0,
        ;
        assert(c == 2);
        assert(k == 0x100_0000);
        assert(4 * l >= 2 * k - 2) by (nonlinear_arith)
            requires
                2 * n <= 2 * ((l * 2) * u) + 2 * u,
                2 * n >= 2 * (k * u),
                u > 0,
        ;
        assert(4 * l <= 2 * k + 3) by (nonlinear_arith)
            requires
                2 * ((l * 2) * u) <= 2 * n + 2 * u,
                2 * n <= 2 * (k * u) + u,
                u > 0,
        ;
        assert(l == 0x80_0000);
        assert(l * (step * c) == k * step) by (nonlinear_arith)
            requires
                l == 0x80_0000,
                k == 0x100_0000,
                c == 2,
        ;
    }
}

/// There is one nearest number.
pub proof fn nearest_is_unique(a: nat, b: nat, n: nat, d: nat)
    requires
        d > 0,
        nearest_to(a, n, d),
        nearest_to(b, n, d),
    ensures
        a == b,
{
    let (j, k) = choose|j: nat, k: nat| #[trigger] nearest_by(a, n, d, j, k);
    let (i, l) = choose|i: nat, l: nat| #[trigger] nearest_by(b, n, d, i, l);
    if j <= i {
        lemma_one_nearest(a, j, k, b, i, l, n, d);
    } else {
        lemma_one_nearest(b, i, l, a, j, k, n, d);
    }
}

/// A sum is the number nearest to the exact sum. One that is zero has a sign only
/// where both parts do.
pub proof fn sum_is_rounded(s: bool, m: nat, t: bool, n: nat)
    ensures
        ({
            let a = if s {
                -m
            } else {
                m as int
            };
            let b = if t {
                -n
            } else {
                n as int
            };
            let r = add_spec(
                Value::Finite { negative: s, units: m },
                Value::Finite { negative: t, units: n },
            );
            &&& a + b > 0 ==> rounds_to(r, false, (a + b) as nat, 1)
            &&& a + b < 0 ==> rounds_to(r, true, (-(a + b)) as nat, 1)
            &&& a + b == 0 ==> r == (Value::Finite { negative: s && t, units: 0 })
        }),
{
    let a = if s {
        -m
    } else {
        m as int
    };
    let b = if t {
        -n
    } else {
        n as int
    };
    if a + b > 0 {
        rounding_is_to_the_nearest(false, (a + b) as nat, 1);
    } else if a + b < 0 {
        rounding_is_to_the_nearest(true, (-(a + b)) as nat, 1);
    }
}

/// A difference is the sum with what is taken away under the other sign.
pub proof fn difference_is_a_sum(a: Value, negative: bool, units: nat)
    ensures
        sub_spec(a, Value::Finite { negative, units }) == add_spec(
            a,
            Value::Finite { negative: !negative, units },
        ),
        sub_spec(a, Value::Infinite { negative }) == add_spec(
            a,
            Value::Infinite { negative: !negative },
        ),
        sub_spec(a, Value::Nan) is Nan,
{
}

/// A product is the number nearest to the exact product, and negative where one of
/// the two is.
pub proof fn product_is_rounded(s: bool, m: nat, t: bool, n: nat)
    ensures
        rounds_to(
            mul_spec(
                Value::Finite { negative: s, units: m },
                Value::Finite { negative: t, units: n },
            ),
            s != t,
            m * n,
            pow2(149),
        ),
{
    lemma_pow2_pos(149);
    rounding_is_to_the_nearest(s != t, m * n, one());
}

/// A quotient is the number nearest to the exact quotient; by zero, it is infinite,
/// or no number where zero is divided.
pub proof fn quotient_is_rounded(s: bool, m: nat, t: bool, n: nat)
    ensures
        ({
            let r = div_spec(
                Value::Finite { negative: s, units: m },
                Value::Finite { negative: t, units: n },
            );
            &&& n > 0 ==> rounds_to(r, s != t, m * pow2(149), n)
            &&& n == 0 && m > 0 ==> r == (Value::Infinite { negative: s != t })
            &&& n == 0 && m == 0 ==> r is Nan
        }),
{
    if n > 0 {
        rounding_is_to_the_nearest(s != t, m * one(), n);
    }
}

/// Whether `size` is `k` steps of 2^j, where the step is the last of 24 bits of the
/// square root of `n`, and is no more than half a step away from that root; where it
/// is half a step, `k` is even.
pub open spec fn root_by(size: nat, n: nat, j: nat, k: nat) -> bool {
    let step = pow2(j);
    let low = 2 * size - step;
    let high = 2 * size + step;
    &&& size == k * step
    &&& k <= 0x100_0000
    &&& (0x80_0000 * step) * (0x80_0000 * step) <= n
    &&& 0 <= low
    &&& low * low <= 4 * n <= high * high
    &&& low * low == 4 * n || 4 * n == high * high ==> k % 2 == 0
}

/// A root is the number nearest to the exact square root. Zero is its own root, and
/// what is below it has none.
pub proof fn root_is_rounded(negative: bool, units: nat)
    ensures
        ({
            let r = sqrt_spec(Value::Finite { negative, units });
            &&& units == 0 ==> r == (Value::Finite { negative, units })
            &&& units > 0 && negative ==> r is Nan
            &&& units > 0 && !negative ==> exists|size: nat, j: nat, k: nat| #[trigger]
                root_by(size, units * pow2(149), j, k) && r == if size < pow2(277) {
                    Value::Finite { negative: false, units: size }
                } else {
                    Value::Infinite { negative: false }
                }
        }),
{
    if units > 0 && !negative {
        let (size, j, k) = lemma_root(units);
    }
}

proof fn lemma_root(units: nat) -> (r: (nat, nat, nat))
    requires
        units > 0,
    ensures
        root_by(r.0, units * pow2(149), r.1, r.2),
        rounded_root(units) == if r.0 < pow2(277) {
            Value::Finite { negative: false, units: r.0 }
        } else {
            Value::Infinite { negative: false }
        },
{
    let n = units * one();
    let s = floor_sqrt(n);
    lemma_floor_sqrt_exists(n);
    assert(s * s <= n < (s + 1) * (s + 1));
    // The root has far more than 24 bits before it is rounded.
    let big = pow2(74);
    lemma_pow2_pos(74);
    lemma_pow2_adds(74, 74);
    lemma_pow2_unfold(149);
    assert(n >= one()) by (nonlinear_arith)
        requires
            n == units * one(),
            units > 0,
    ;
    assert(s >= big) by (nonlinear_arith)
        requires
            n < (s + 1) * (s + 1),
            n >= 2 * (big * big),
            big > 0,
    ;
    lemma_pow2_adds(25, 49);
    lemma_pow2_pos(49);
    lemma2_to64();
    assert(big >= 0x200_0000) by (nonlinear_arith)
        requires
            big == 0x200_0000 * pow2(49),
            pow2(49) > 0,
    ;
    let e: nat = if s * s == n {
        0
    } else {
        1
    };
    let num = 2 * s + e;
    let (j, k) = lemma_round24(num, 2);
    assert(num / 2 == s);
    let step = pow2(j);
    let size = round24(num, 2);
    assert(j > 0);
    let half = pow2((j - 1) as nat);
    lemma_pow2_unfold(j);
    lemma_pow2_pos((j - 1) as nat);
    assert(step == 2 * half);
    let grid = 0x80_0000 * step;
    assert(grid * 2 <= num);
    assert(grid <= s);
    assert(grid * grid <= s * s) by (nonlinear_arith)
        requires
            0 <= grid <= s,
    ;
    let low = 2 * size - step;
    let high = 2 * size + step;
    assert(-step <= num - 2 * size <= step);
    assert(low <= num <= high);
    assert(k >= 1) by (nonlinear_arith)
        requires
            size == k * step,
            2 * size + step >= num,
            num >= 2 * (0x80_0000 * step),
            step > 0,
    ;
    assert(size >= step) by (nonlinear_arith)
        requires
            size == k * step,
            k >= 1,
    ;
    assert((2 * s) * (2 * s) == 4 * (s * s)) by (nonlinear_arith);
    assert((2 * s + 2) * (2 * s + 2) == 4 * ((s + 1) * (s + 1))) by (nonlinear_arith);
    if e == 0 {
        assert(low * low <= (2 * s) * (2 * s)) by (nonlinear_arith)
            requires
                0 <= low <= 2 * s,
        ;
        assert((2 * s) * (2 * s) <= high * high) by (nonlinear_arith)
            requires
                0 <= 2 * s <= high,
        ;
        if low * low == 4 * n {
            assert(low == 2 * s) by (nonlinear_arith)
                requires
                    low * low == (2 * s) * (2 * s),
                    low >= 0,
                    s >= 0,
            ;
        }
        if high * high == 4 * n {
            assert(high == 2 * s) by (nonlinear_arith)
                requires
                    high * high == (2 * s) * (2 * s),
                    high >= 0,
                    s >= 0,
            ;
        }
    } else {
        assert(low % 2 == 0 && high % 2 == 0);
        assert(low <= 2 * s && 2 * s + 2 <= high);
        assert(low * low <= (2 * s) * (2 * s)) by (nonlinear_arith)
            requires
                0 <= low <= 2 * s,
        ;
        assert((2 * s + 2) * (2 * s + 2) <= high * high) by (nonlinear_arith)
            requires
                0 <= 2 * s + 2 <= high,
        ;
    }
    assert(root_by(size, n, j, k));
    (size, j, k)
}

/// What is not a number spoils every operation, and compares with nothing.
pub proof fn what_is_no_number_spreads(a: Value)
    ensures
        add_spec(a, Value::Nan) is Nan && add_spec(Value::Nan, a) is Nan,
        sub_spec(a, Value::Nan) is Nan && sub_spec(Value::Nan, a) is Nan,
        mul_spec(a, Value::Nan) is Nan && mul_spec(Value::Nan, a) is Nan,
        div_spec(a, Value::Nan) is Nan && div_spec(Value::Nan, a) is Nan,
        sqrt_spec(Value::Nan) is Nan,
        size_spec(Value::Nan) is Nan,
        !le(a, Value::Nan) && !le(Value::Nan, a),
        !lt(a, Value::Nan) && !lt(Value::Nan, a),
        min_spec(a, Value::Nan) == a && min_spec(Value::Nan, a) == a,
        byte_spec(Value::Nan) == 0,
{
}

/// How infinite values are reckoned with. An infinite value absorbs a finite one;
/// what has no answer is no number.
pub proof fn infinite_values_absorb(s: bool, t: bool, units: nat)
    ensures
        ({
            let inf = Value::Infinite { negative: s };
            let other = Value::Infinite { negative: t };
            let v = Value::Finite { negative: t, units };
            &&& add_spec(inf, v) == inf && add_spec(v, inf) == inf
            &&& s == t ==> add_spec(inf, other) == inf
            &&& s != t ==> add_spec(inf, other) is Nan
            &&& mul_spec(inf, other) == (Value::Infinite { negative: s != t })
            &&& units > 0 ==> mul_spec(inf, v) == (Value::Infinite { negative: s != t })
                && mul_spec(v, inf) == (Value::Infinite { negative: s != t })
            &&& units == 0 ==> mul_spec(inf, v) is Nan && mul_spec(v, inf) is Nan
            &&& div_spec(inf, other) is Nan
            &&& div_spec(inf, v) == (Value::Infinite { negative: s != t })
            &&& div_spec(v, inf) == (Value::Finite { negative: s != t, units: 0 })
            &&& s ==> sqrt_spec(inf) is Nan && byte_spec(inf) == 0
            &&& !s ==> sqrt_spec(inf) == inf && byte_spec(inf) == 255
        }),
{
}

/// The order of addition and multiplication does not matter.
pub proof fn order_does_not_matter(a: Value, b: Value)
    ensures
        add_spec(a, b) == add_spec(b, a),
        mul_spec(a, b) == mul_spec(b, a),
{
    if let (Value::Finite { units: m, .. }, Value::Finite { units: n, .. }) = (a, b) {
        assert(m * n == n * m) by (nonlinear_arith);
    }
}

/// Signs go through products and quotients, and come off a value by taking its
/// size.
pub proof fn signs_go_through(a: Value, b: Value)
    ensures
        negated(negated(a)) == a,
        mul_spec(negated(a), b) == negated(mul_spec(a, b)),
        mul_spec(a, negated(b)) == negated(mul_spec(a, b)),
        div_spec(negated(a), b) == negated(div_spec(a, b)),
        div_spec(a, negated(b)) == negated(div_spec(a, b)),
        size_spec(negated(a)) == size_spec(a),
        a matches Value::Finite { negative, units } ==> size_spec(a) == if negative {
            negated(a)
        } else {
            a
        },
        a matches Value::Infinite { negative } ==> size_spec(a) == if negative {
            negated(a)
        } else {
            a
        },
{
}

/// Numbers are in order: finite ones by what they are worth, zero being the same
/// with either sign, and infinite ones at the two ends.
pub proof fn numbers_are_in_order(s: bool, m: nat, t: bool, n: nat, v: Value)
    ensures
        ({
            let a = if s {
                -m
            } else {
                m as int
            };
            let b = if t {
                -n
            } else {
                n as int
            };
            let x = Value::Finite { negative: s, units: m };
            let y = Value::Finite { negative: t, units: n };
            &&& le(x, y) <==> a <= b
            &&& lt(x, y) <==> a < b
        }),
        !(v is Nan) ==> le(Value::Infinite { negative: true }, v) && le(
            v,
            Value::Infinite { negative: false },
        ),
        le(v, Value::Infinite { negative: true }) ==> v == (Value::Infinite { negative: true }),
        le(Value::Infinite { negative: false }, v) ==> v == (Value::Infinite { negative: false }),
{
}

/// What is clamped lies between the bounds, and is unchanged where it did already;
/// what is not a number stays so.
pub proof fn clamping_stays_within_bounds(a: Value, low: Value, high: Value)
    requires
        le(low, high),
    ensures
        ({
            let r = clamp_spec(a, low, high);
            &&& !(a is Nan) ==> le(low, r) && le(r, high)
            &&& le(low, a) && le(a, high) ==> r == a
            &&& !(a is Nan) && !le(low, a) ==> r == low
            &&& !(a is Nan) && !le(a, high) ==> r == high
            &&& a is Nan ==> r is Nan
        }),
{
}

/// The lesser of two numbers is one of them and no more than either.
pub proof fn lesser_is_at_most_both(a: Value, b: Value)
    requires
        !(a is Nan),
        !(b is Nan),
    ensures
        min_spec(a, b) == a || min_spec(a, b) == b,
        le(min_spec(a, b), a),
        le(min_spec(a, b), b),
{
}

/// A byte is the integer part: at most the number, and less than one below it, for
/// numbers from 0 up to 256; below and above that it is the nearest byte.
pub proof fn byte_is_the_integer_part(negative: bool, units: nat)
    ensures
        ({
            let b = byte_spec(Value::Finite { negative, units });
            &&& negative ==> b == 0
            &&& !negative && units < 256 * pow2(149) ==> b * pow2(149) <= units < (b + 1) * pow2(
                149,
            )
            &&& !negative && units >= 256 * pow2(149) ==> b == 255
        }),
{
    let w = pow2(149);
    lemma_pow2_pos(149);
    lemma_fundamental_div_mod(units as int, w as int);
    let q = units / w;
    assert(w * q == q * w) by (nonlinear_arith);
    assert((q + 1) * w == q * w + w) by (nonlinear_arith);
    if units < 256 * w {
        assert(q < 256) by (nonlinear_arith)
            requires
                q * w <= units,
                units < 256 * w,
                w > 0,
        ;
    } else {
        assert(q >= 256) by (nonlinear_arith)
            requires
                units < (q + 1) * w,
                units >= 256 * w,
                w > 0,
        ;
    }
}

/// Integers, halves and ratios are what they are called: one is 2^149 units, each
/// integer is one more than that before it, a half lies in the middle between two,
/// and a ratio is the number nearest to the quotient.
pub proof fn constants_are_what_they_are_called(n: nat, d: nat)
    ensures
        whole_spec(1) == (Value::Finite { negative: false, units: pow2(149) }),
        whole_spec(0) == (Value::Finite { negative: false, units: 0 }),
        whole_spec(n + 1)->units == whole_spec(n)->units + pow2(149),
        whole_spec(n) is Finite && !whole_spec(n)->Finite_negative,
        half_past_spec(n) is Finite && !half_past_spec(n)->Finite_negative,
        2 * half_past_spec(n)->units == whole_spec(n)->units + whole_spec(n + 1)->units,
        d > 0 ==> rounds_to(ratio_spec(n, d), false, n * pow2(149), d),
{
    let w = pow2(149);
    let h = pow2(148);
    lemma_pow2_unfold(149);
    assert((n + 1) * w == n * w + w) by (nonlinear_arith);
    assert(2 * ((2 * n + 1) * h) == n * (2 * h) + (n * (2 * h) + 2 * h)) by (nonlinear_arith);
    assert(1 * w == w);
    assert(0 * w == 0);
    if d > 0 {
        rounding_is_to_the_nearest(false, n * one(), d);
    }
}

} // verus!
