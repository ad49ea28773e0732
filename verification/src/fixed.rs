//! Values worked out: what an operation gives on numbers that are written in units of
//! 2^-48, and how large its result can get.
use crate::number::{add_spec, div_spec, exact, floor_sqrt, half_past_spec, mul_spec, nearest};
use crate::number::{lemma_below_top, lemma_floor_sqrt_exists, lemma_rounded_value};
use crate::number::{lemma_shifted_on_grid, one, ratio_spec, rounded, rounds_here, signed, spacing};
use crate::number::{sqrt_spec, whole_spec, Value, SIGNIFICAND};
use vstd::arithmetic::div_mod::{lemma_div_denominator, lemma_fundamental_div_mod};
use vstd::arithmetic::power2::{
    lemma2_to64, lemma2_to64_rest, lemma_pow2_adds, lemma_pow2_pos,
    lemma_pow2_strictly_increases, lemma_pow2_unfold, pow2,
};
use vstd::prelude::*;

verus! {

/// `v` units of 2^-48.
pub open spec fn fixed(negative: bool, v: nat) -> Value {
    Value::Finite { negative, units: v * pow2(101) }
}

/// Units of 2^-48 in the number 1.
pub open spec fn fixed_one() -> nat {
    0x1_0000_0000_0000
}

proof fn lemma_fixed_one()
    ensures
        one() == fixed_one() * pow2(101),
{
    lemma2_to64_rest();
    lemma_pow2_adds(48, 101);
}

/// Integers and halves in units of 2^-48.
pub proof fn lemma_fixed_whole(n: nat)
    ensures
        whole_spec(n) == fixed(false, n * fixed_one()),
        half_past_spec(n) == fixed(false, n * fixed_one() + fixed_one() / 2),
{
    lemma_fixed_one();
    lemma2_to64_rest();
    lemma_pow2_adds(47, 101);
    let p = pow2(101);
    assert(n * (0x1_0000_0000_0000 * p) == (n * 0x1_0000_0000_0000) * p) by (nonlinear_arith);
    assert((2 * n + 1) * (0x8000_0000_0000 * p) == (n * 0x1_0000_0000_0000 + 0x8000_0000_0000) * p)
        by (nonlinear_arith);
}

/// Few bits in units of 2^-48 are a number.
pub proof fn lemma_fixed_is_exact(k: nat, j: nat)
    requires
        k < SIGNIFICAND,
        j <= 100,
    ensures
        exact(fixed(false, k * pow2(j))),
{
    lemma_pow2_adds(j, 101);
    assert((k * pow2(j)) * pow2(101) == k * (pow2(j) * pow2(101))) by (nonlinear_arith);
    lemma_shifted_on_grid(k, j + 101);
    lemma_below_top(k, j + 101);
}

/// What `num / den` is rounded to, where it is 2^101 times `n / d`, and that is
/// nearest to `k` times `step`, which is 2^j.
proof fn lemma_fixed_value(
    num: nat,
    den: nat,
    n: nat,
    d: nat,
    j: nat,
    step: nat,
    unit: nat,
    k: nat,
)
    requires
        den > 0,
        d > 0,
        j <= 100,
        num * d == (n * pow2(101)) * den,
        step == pow2(j),
        unit == d * step,
        0x80_0000 * unit <= n < 0x100_0000 * unit,
        rounds_here(2 * (n - k * unit), unit, k),
        k <= 0x100_0000,
    ensures
        forall|s: bool| #[trigger] rounded(s, num, den) == fixed(s, k * step),
{
    let p = pow2(101);
    let big = pow2(j + 101);
    lemma_pow2_adds(j, 101);
    lemma_pow2_pos(101);
    lemma_pow2_pos(j);
    let whole = den * big;
    assert(d * whole == (den * p) * unit) by (nonlinear_arith)
        requires
            whole == den * big,
            big == step * p,
            unit == d * step,
    ;
    assert(den * p > 0) by (nonlinear_arith)
        requires
            den > 0,
            p > 0,
    ;
    assert(d * num == (den * p) * n) by (nonlinear_arith)
        requires
            num * d == (n * p) * den,
    ;
    let c = den * p;
    assert(0x80_0000 * whole <= num) by (nonlinear_arith)
        requires
            d * whole == c * unit,
            d * num == c * n,
            0x80_0000 * unit <= n,
            c > 0,
            d > 0,
    ;
    assert(num < 0x100_0000 * whole) by (nonlinear_arith)
        requires
            d * whole == c * unit,
            d * num == c * n,
            n < 0x100_0000 * unit,
            c > 0,
            d > 0,
    ;
    assert(rounds_here(2 * (num - k * whole), whole, k)) by {
        let e = 2 * (n - k * unit);
        let f = 2 * (num - k * whole);
        assert(d * f == c * e) by (nonlinear_arith)
            requires
                d * whole == c * unit,
                d * num == c * n,
                e == 2 * (n - k * unit),
                f == 2 * (num - k * whole),
        ;
        assert(-unit < e < unit ==> -whole < f < whole) by (nonlinear_arith)
            requires
                d * f == c * e,
                d * whole == c * unit,
                c > 0,
                d > 0,
        ;
        assert(e == unit ==> f == whole) by (nonlinear_arith)
            requires
                d * f == c * e,
                d * whole == c * unit,
                d > 0,
        ;
        assert(e == -unit ==> f == -whole) by (nonlinear_arith)
            requires
                d * f == c * e,
                d * whole == c * unit,
                d > 0,
        ;
    }
    let q = num / den;
    lemma_fundamental_div_mod(num as int, den as int);
    assert(0x80_0000 * big <= q) by (nonlinear_arith)
        requires
            0x80_0000 * (den * big) <= num,
            num == den * q + num % den,
            0 <= num % den < den,
            den > 0,
    ;
    assert(q < 0x100_0000 * big) by (nonlinear_arith)
        requires
            num < 0x100_0000 * (den * big),
            num == den * q + num % den,
            0 <= num % den,
            den > 0,
    ;
    lemma_rounded_value(num, den, j + 101, big, whole, k);
    assert(k * (step * p) == (k * step) * p) by (nonlinear_arith);
    lemma2_to64();
    lemma_pow2_adds(24, j + 101);
    lemma_pow2_strictly_increases((24 + (j + 101)) as nat, 277);
    assert(k * big <= 0x100_0000 * big) by (nonlinear_arith)
        requires
            k <= 0x100_0000,
    ;
}

/// The ratio `a / b` in units of 2^-48.
pub proof fn lemma_fixed_ratio(a: nat, b: nat, j: nat, step: nat, unit: nat, k: nat)
    requires
        b > 0,
        j <= 100,
        step == pow2(j),
        unit == b * step,
        0x80_0000 * unit <= a * fixed_one() < 0x100_0000 * unit,
        rounds_here(2 * (a * fixed_one() - k * unit), unit, k),
        k <= 0x100_0000,
    ensures
        ratio_spec(a, b) == fixed(false, k * step),
{
    lemma_fixed_one();
    let p = pow2(101);
    assert((a * (0x1_0000_0000_0000 * p)) * b == ((a * 0x1_0000_0000_0000) * p) * b)
        by (nonlinear_arith);
    lemma_fixed_value(a * one(), b, a * fixed_one(), b, j, step, unit, k);
}

/// A product in units of 2^-48.
pub proof fn lemma_fixed_mul(
    s: bool,
    a: nat,
    t: bool,
    b: nat,
    j: nat,
    step: nat,
    unit: nat,
    k: nat,
)
    requires
        j <= 100,
        step == pow2(j),
        unit == fixed_one() * step,
        0x80_0000 * unit <= a * b < 0x100_0000 * unit,
        rounds_here(2 * (a * b - k * unit), unit, k),
        k <= 0x100_0000,
    ensures
        mul_spec(fixed(s, a), fixed(t, b)) == fixed(s != t, k * step),
{
    lemma_fixed_one();
    lemma_pow2_pos(149);
    let p = pow2(101);
    assert(((a * p) * (b * p)) * 0x1_0000_0000_0000 == ((a * b) * p) * (0x1_0000_0000_0000 * p))
        by (nonlinear_arith);
    lemma_fixed_value((a * p) * (b * p), one(), a * b, fixed_one(), j, step, unit, k);
}

/// A quotient in units of 2^-48.
pub proof fn lemma_fixed_div(
    s: bool,
    a: nat,
    t: bool,
    b: nat,
    j: nat,
    step: nat,
    unit: nat,
    k: nat,
)
    requires
        b > 0,
        j <= 100,
        step == pow2(j),
        unit == b * step,
        0x80_0000 * unit <= a * fixed_one() < 0x100_0000 * unit,
        rounds_here(2 * (a * fixed_one() - k * unit), unit, k),
        k <= 0x100_0000,
    ensures
        div_spec(fixed(s, a), fixed(t, b)) == fixed(s != t, k * step),
{
    lemma_fixed_one();
    let p = pow2(101);
    lemma_pow2_pos(101);
    assert(b * p > 0) by (nonlinear_arith)
        requires
            b > 0,
            p > 0,
    ;
    assert(((a * p) * (0x1_0000_0000_0000 * p)) * b == ((a * 0x1_0000_0000_0000) * p) * (b * p))
        by (nonlinear_arith);
    lemma_fixed_value((a * p) * one(), b * p, a * fixed_one(), b, j, step, unit, k);
}

/// A sum in units of 2^-48 that is not zero: `negative` and `size` are its sign and
/// size before it is rounded.
pub proof fn lemma_fixed_add(
    s: bool,
    a: nat,
    t: bool,
    b: nat,
    negative: bool,
    size: nat,
    j: nat,
    step: nat,
    k: nat,
)
    requires
        signed(s, a) + signed(t, b) == signed(negative, size),
        j <= 100,
        step == pow2(j),
        0x80_0000 * step <= size < 0x100_0000 * step,
        rounds_here(2 * (size - k * step), step, k),
        k <= 0x100_0000,
    ensures
        add_spec(fixed(s, a), fixed(t, b)) == fixed(negative, k * step),
{
    let p = pow2(101);
    lemma_pow2_pos(101);
    lemma_pow2_pos(j);
    assert(signed(s, a * p) == signed(s, a) * p) by (nonlinear_arith)
        requires
            signed(s, a) == if s { -a } else { a as int },
            signed(s, a * p) == if s { -(a * p) } else { (a * p) as int },
    ;
    assert(signed(t, b * p) == signed(t, b) * p) by (nonlinear_arith)
        requires
            signed(t, b) == if t { -b } else { b as int },
            signed(t, b * p) == if t { -(b * p) } else { (b * p) as int },
    ;
    let sum = signed(s, a * p) + signed(t, b * p);
    assert(signed(s, a) * p + signed(t, b) * p == (signed(s, a) + signed(t, b)) * p)
        by (nonlinear_arith);
    assert(sum == signed(negative, size) * p);
    assert(size * p > 0) by (nonlinear_arith)
        requires
            size > 0,
            p > 0,
    ;
    assert((-size) * p == -(size * p)) by (nonlinear_arith);
    assert((size * p) * 1 == (size * p) * 1);
    lemma_fixed_value(size * p, 1, size, 1, j, step, step, k);
}

/// A square root in units of 2^-48, from the integer root `s` of the units.
pub proof fn lemma_fixed_sqrt(a: nat, s: nat, j: nat, step: nat, k: nat)
    requires
        a > 0,
        s * s <= a * fixed_one() < (s + 1) * (s + 1),
        j <= 100,
        step == pow2(j),
        0x80_0000 * step <= s,
        s + 1 <= 0x100_0000 * step,
        -step < 2 * (s - k * step),
        2 * (s + 1 - k * step) < step,
        k <= 0x100_0000,
    ensures
        sqrt_spec(fixed(false, a)) == fixed(false, k * step),
{
    let p = pow2(101);
    lemma_pow2_pos(101);
    lemma_pow2_pos(j);
    lemma_fixed_one();
    let units = a * p;
    assert(units > 0) by (nonlinear_arith)
        requires
            units == a * p,
            a > 0,
            p > 0,
    ;
    let n = units * one();
    let v = a * fixed_one();
    assert(n == v * (p * p)) by (nonlinear_arith)
        requires
            n == (a * p) * (0x1_0000_0000_0000 * p),
            v == a * 0x1_0000_0000_0000,
    ;
    lemma_floor_sqrt_exists(n);
    let root = floor_sqrt(n);
    let low = s * p;
    let high = (s + 1) * p;
    assert(low * low == (s * s) * (p * p)) by (nonlinear_arith)
        requires
            low == s * p,
    ;
    assert(high * high == ((s + 1) * (s + 1)) * (p * p)) by (nonlinear_arith)
        requires
            high == (s + 1) * p,
    ;
    assert(p * p > 0) by (nonlinear_arith)
        requires
            p > 0,
    ;
    assert(low * low <= n) by (nonlinear_arith)
        requires
            low * low == (s * s) * (p * p),
            n == v * (p * p),
            s * s <= v,
    ;
    assert(n < high * high) by (nonlinear_arith)
        requires
            high * high == ((s + 1) * (s + 1)) * (p * p),
            n == v * (p * p),
            v < (s + 1) * (s + 1),
            p * p > 0,
    ;
    assert(low <= root) by (nonlinear_arith)
        requires
            low * low <= n,
            n < (root + 1) * (root + 1),
            low >= 0,
            root >= 0,
    ;
    assert(root < high) by (nonlinear_arith)
        requires
            root * root <= n,
            n < high * high,
            high >= 0,
            root >= 0,
    ;
    let num = 2 * root + if root * root == n { 0nat } else { 1nat };
    let big = pow2(j + 101);
    lemma_pow2_adds(j, 101);
    let whole = 2 * big;
    assert(2 * low <= num < 2 * high);
    assert((k * step) * p == k * (step * p)) by (nonlinear_arith);
    assert(k * whole == 2 * ((k * step) * p)) by (nonlinear_arith)
        requires
            whole == 2 * (step * p),
    ;
    assert(-(step * p) < 2 * (s * p - (k * step) * p)) by (nonlinear_arith)
        requires
            -step < 2 * (s - k * step),
            p > 0,
    ;
    assert(2 * ((s + 1) * p - (k * step) * p) < step * p) by (nonlinear_arith)
        requires
            2 * (s + 1 - k * step) < step,
            p > 0,
    ;
    assert(0x80_0000 * (step * p) <= s * p) by (nonlinear_arith)
        requires
            0x80_0000 * step <= s,
    ;
    assert((s + 1) * p <= 0x100_0000 * (step * p)) by (nonlinear_arith)
        requires
            s + 1 <= 0x100_0000 * step,
    ;
    assert(0x80_0000 * big <= num / 2 < 0x100_0000 * big);
    lemma_rounded_value(num, 2, j + 101, big, whole, k);
    lemma2_to64();
    lemma_pow2_adds(24, j + 101);
    lemma_pow2_strictly_increases((24 + (j + 101)) as nat, 277);
    assert(k * big <= 0x100_0000 * big) by (nonlinear_arith)
        requires
            k <= 0x100_0000,
    ;
}

/// Whether a value is finite and below 2^b units.
pub open spec fn below(v: Value, b: nat) -> bool {
    v matches Value::Finite { negative, units } && units < pow2(b)
}

/// Rounding at most doubles.
proof fn lemma_rounded_below(negative: bool, n: nat, d: nat, b: nat)
    requires
        d > 0,
        n < d * pow2(b),
        b <= 275,
    ensures
        below(rounded(negative, n, d), b + 1),
{
    let q = n / d;
    let step = spacing(q);
    lemma_spacing_bound(q);
    lemma_fundamental_div_mod(n as int, d as int);
    let p = pow2(b);
    assert(q < p) by (nonlinear_arith)
        requires
            n < d * p,
            n == d * q + n % d,
            0 <= n % d,
            d > 0,
    ;
    lemma_div_denominator(n as int, d as int, step as int);
    let k = q / step;
    lemma_fundamental_div_mod(q as int, step as int);
    assert(k * step <= q) by (nonlinear_arith)
        requires
            q == step * k + q % step,
            0 <= q % step,
    ;
    assert((k + 1) * step == k * step + step) by (nonlinear_arith);
    let m = nearest(n, d * step);
    assert(m == k || m == k + 1);
    assert(m * step <= 2 * q + 1);
    lemma_pow2_unfold(b + 1);
    if b + 1 < 277 {
        lemma_pow2_strictly_increases(b + 1, 277);
    }
}

/// Spacing never exceeds the number that it is taken at, or 1.
proof fn lemma_spacing_bound(q: nat)
    ensures
        1 <= spacing(q),
        spacing(q) <= q || spacing(q) == 1,
    decreases q,
{
    if q >= SIGNIFICAND {
        lemma_spacing_bound(q / 2);
    }
}

pub proof fn lemma_mul_below(a: Value, b: Value, i: nat, j: nat)
    requires
        below(a, i),
        below(b, j),
        149 <= i + j <= 424,
    ensures
        below(mul_spec(a, b), (i + j - 148) as nat),
{
    if let (Value::Finite { units: m, .. }, Value::Finite { units: n, .. }) = (a, b) {
        lemma_pow2_adds(i, j);
        lemma_pow2_adds(149, (i + j - 149) as nat);
        lemma_pow2_pos(149);
        assert(m * n < pow2(i) * pow2(j)) by (nonlinear_arith)
            requires
                0 <= m < pow2(i),
                0 <= n < pow2(j),
        ;
        lemma_rounded_below(true, m * n, one(), (i + j - 149) as nat);
        lemma_rounded_below(false, m * n, one(), (i + j - 149) as nat);
    }
}

pub proof fn lemma_add_below(a: Value, b: Value, i: nat)
    requires
        below(a, i),
        below(b, i),
        i <= 274,
    ensures
        below(add_spec(a, b), i + 2),
{
    if let (Value::Finite { negative: s, units: m }, Value::Finite { negative: t, units: n }) = (
        a,
        b,
    ) {
        let sum = signed(s, m) + signed(t, n);
        lemma_pow2_unfold(i + 1);
        lemma_pow2_pos(i + 2);
        let size = if sum < 0 {
            (-sum) as nat
        } else {
            sum as nat
        };
        lemma_rounded_below(true, size, 1, i + 1);
        lemma_rounded_below(false, size, 1, i + 1);
    }
}

pub proof fn lemma_div_below(a: Value, b: Value, i: nat, j: nat)
    requires
        below(a, i),
        b is Finite,
        b->units >= pow2(j),
        j <= i + 149 <= j + 275,
    ensures
        below(div_spec(a, b), (i + 150 - j) as nat),
{
    if let (Value::Finite { units: m, .. }, Value::Finite { units: n, .. }) = (a, b) {
        lemma_pow2_pos(j);
        lemma_pow2_pos(149);
        let c = (i + 149 - j) as nat;
        lemma_pow2_pos(c);
        lemma_pow2_adds(i, 149);
        lemma_pow2_adds(j, c);
        assert(m * one() < pow2(i) * one()) by (nonlinear_arith)
            requires
                m < pow2(i),
                one() > 0,
        ;
        assert(pow2(j) * pow2(c) <= n * pow2(c)) by (nonlinear_arith)
            requires
                pow2(j) <= n,
        ;
        lemma_rounded_below(true, m * one(), n, c);
        lemma_rounded_below(false, m * one(), n, c);
    }
}

} // verus!
