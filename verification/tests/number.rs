use tunnel::icon::{compose, ellipse_u, grad_t, lerp3, rgb, ring_cov, Layer, Rgb};
use tunnel::number::Num;

fn same(a: Num, b: Num) -> bool {
    a.at_most(b) && b.at_most(a)
}

/// What a number looks like: a class, a sign, the power of two and the bits.
type Print = (char, bool, i32, [u8; 4]);

fn print_of(x: Num) -> Print {
    let zero = Num::whole(0);
    let one = Num::whole(1);
    let two = Num::whole(2);
    if !x.at_most(x) {
        return ('n', false, 0, [0; 4]);
    }
    if same(x, zero) {
        return ('0', one.over(x).less(zero), 0, [0; 4]);
    }
    let negative = x.less(zero);
    let mut y = x.size_of();
    if same(y.over(two), y) {
        return ('i', negative, 0, [0; 4]);
    }
    let mut power = 0;
    while two.at_most(y) {
        y = y.over(two);
        power += 1;
    }
    while y.less(one) {
        y = y.times(two);
        power -= 1;
    }
    let mut bits = [0; 4];
    for b in &mut bits {
        *b = y.byte();
        y = y.minus(Num::whole(*b as u16)).times(Num::whole(256));
    }
    ('f', negative, power, bits)
}

fn native(x: f32) -> Print {
    if x.is_nan() {
        return ('n', false, 0, [0; 4]);
    }
    if x == 0.0 {
        return ('0', x.is_sign_negative(), 0, [0; 4]);
    }
    if x.is_infinite() {
        return ('i', x < 0.0, 0, [0; 4]);
    }
    let mut y = x.abs();
    let mut power = 0;
    while y >= 2.0 {
        y /= 2.0;
        power += 1;
    }
    while y < 1.0 {
        y *= 2.0;
        power -= 1;
    }
    let mut bits = [0; 4];
    for b in &mut bits {
        *b = y as u8;
        y = (y - *b as f32) * 256.0;
    }
    ('f', x < 0.0, power, bits)
}

/// Values of every kind, in both arithmetics.
fn sample() -> Vec<(Num, f32)> {
    let mut all = vec![
        (Num::whole(0), 0.0f32),
        (Num::whole(1), 1.0),
        (Num::whole(3), 3.0),
        (Num::whole(65535), 65535.0),
        (Num::half_past(0), 0.5),
        (Num::half_past(65535), 65535.5),
        (Num::ratio(1, 3), 1.0 / 3.0),
        (Num::ratio(1, 10), 0.1),
        (Num::ratio(65535, 7), 65535.0 / 7.0),
        (Num::ratio(1, 65535), 1.0 / 65535.0),
    ];
    let mut big = (Num::ratio(9, 7), 9.0f32 / 7.0);
    let mut small = (Num::ratio(9, 7), 9.0f32 / 7.0);
    for _ in 0..9 {
        big = (big.0.times(Num::whole(50021)), big.1 * 50021.0);
        small = (small.0.over(Num::whole(50021)), small.1 / 50021.0);
        all.push(big);
        all.push(small);
    }
    for _ in 0..30 {
        small = (small.0.over(Num::whole(2)), small.1 / 2.0);
        all.push(small);
    }
    for i in 0..all.len() {
        all.push((Num::whole(0).minus(all[i].0), 0.0 - all[i].1));
    }
    all.push((Num::whole(0).times(Num::whole(0).minus(Num::whole(1))), 0.0 * -1.0));
    all.push((Num::whole(0).over(Num::whole(0)), 0.0f32 / (0.0f32 * 1.0)));
    all
}

#[test]
fn arithmetic_is_that_of_single_precision() {
    let all = sample();
    for (a, x) in &all {
        assert_eq!(print_of(*a), native(*x), "{}", x);
        assert_eq!(print_of(a.sqrt()), native(x.sqrt()), "sqrt {}", x);
        assert_eq!(print_of(a.size_of()), native(x.abs()), "abs {}", x);
        assert_eq!(a.byte(), *x as u8, "byte {}", x);
        for (b, y) in &all {
            assert_eq!(a.at_most(*b), x <= y, "{} <= {}", x, y);
            assert_eq!(a.less(*b), x < y, "{} < {}", x, y);
        }
    }
}

#[test]
fn sums_and_differences_are_those_of_single_precision() {
    let all = sample();
    for (a, x) in &all {
        for (b, y) in &all {
            assert_eq!(print_of(a.plus(*b)), native(x + y), "{} + {}", x, y);
            assert_eq!(print_of(a.minus(*b)), native(x - y), "{} - {}", x, y);
        }
    }
}

#[test]
fn products_and_quotients_are_those_of_single_precision() {
    let all = sample();
    for (a, x) in &all {
        for (b, y) in &all {
            assert_eq!(print_of(a.times(*b)), native(x * y), "{} * {}", x, y);
            assert_eq!(print_of(a.over(*b)), native(x / y), "{} / {}", x, y);
        }
    }
}

#[test]
fn long_calculations_stay_together() {
    let mut seed: u32 = 1;
    let mut next = || {
        seed = seed.wrapping_mul(1664525).wrapping_add(1013904223);
        seed >> 8
    };
    for _ in 0..300 {
        let n = (next() % 65535) as u16;
        let d = (next() % 65534 + 1) as u16;
        let mut a = Num::ratio(n, d);
        let mut x = n as f32 / d as f32;
        for _ in 0..20 {
            let n = (next() % 65535) as u16;
            let d = (next() % 65534 + 1) as u16;
            let b = Num::ratio(n, d);
            let y = n as f32 / d as f32;
            (a, x) = match next() % 5 {
                0 => (a.plus(b), x + y),
                1 => (a.minus(b), x - y),
                2 => (a.times(b), x * y),
                3 => (a.over(b), x / y),
                _ => (a.size_of().sqrt(), x.abs().sqrt()),
            };
            assert_eq!(print_of(a), native(x), "{}", x);
        }
    }
}

#[test]
fn clamping_and_the_lesser() {
    let low = Num::whole(0);
    let high = Num::whole(255);
    let nan = low.over(low);
    assert!(same(Num::whole(300).clamp(low, high), high));
    assert!(same(low.minus(Num::whole(1)).clamp(low, high), low));
    assert!(same(Num::whole(17).clamp(low, high), Num::whole(17)));
    assert_eq!(print_of(nan.clamp(low, high)).0, 'n');
    assert!(same(Num::whole(3).min(Num::whole(2)), Num::whole(2)));
    assert!(same(Num::whole(2).min(Num::whole(3)), Num::whole(2)));
    assert!(same(nan.min(high), high) && same(high.min(nan), high));
}

#[test]
fn bytes_are_cut_off_not_rounded() {
    assert_eq!(Num::half_past(12).byte(), 12);
    assert_eq!(Num::ratio(2559, 10).byte(), 255);
    assert_eq!(Num::whole(256).byte(), 255);
    assert_eq!(Num::whole(0).minus(Num::whole(9)).byte(), 0);
    assert_eq!(Num::whole(0).over(Num::whole(0)).byte(), 0);
    assert_eq!(Num::whole(1).over(Num::whole(0)).byte(), 255);
}

fn parts(c: Rgb) -> [Print; 3] {
    [print_of(c.r), print_of(c.g), print_of(c.b)]
}

#[test]
fn drawing_is_not_bound_to_the_icon() {
    let far = lerp3(rgb(0, 0, 0), rgb(1024, 1, 65535), Num::whole(2));
    assert_eq!(parts(far), [native(2048.0), native(2.0), native(131070.0)]);

    let back = Num::whole(0).minus(Num::ratio(5, 2));
    let (x, y, c) = (Num::whole(7), Num::whole(9), Num::whole(2));
    let u = ((5.0f32 / -2.5) * (5.0 / -2.5) + (7.0f32 / 4.0) * (7.0 / 4.0)).sqrt();
    assert_eq!(print_of(ellipse_u(x, y, c, c, back, Num::whole(4))), native(u));
    assert_eq!(print_of(ellipse_u(x, y, c, c, Num::whole(0), Num::whole(4))).0, 'i');
    assert_eq!(print_of(ellipse_u(c, y, c, c, Num::whole(0), Num::whole(4))).0, 'n');

    let cov = ring_cov(x, y, c, c, back, Num::whole(4), Num::whole(1));
    let native_cov = (1.0 + 0.5 - (u - 1.0).abs() * (-2.5f32).min(4.0)).clamp(0.0, 1.0);
    assert_eq!(print_of(cov), native(native_cov));

    let t = grad_t(y, c, back);
    assert_eq!(print_of(t), native(((9.0f32 - (2.0 - -2.5)) / (2.0 * -2.5)).clamp(0.0, 1.0)));
}

#[test]
fn layers_beyond_the_usual_range() {
    let mut acc = Layer { color: rgb(3, 40000, 0), alpha: Num::whole(3) };
    compose(&mut acc, rgb(7, 65535, 1), Num::whole(2));
    let na = 2.0f32 + 3.0 * (1.0 - 2.0);
    assert!(na <= 0.0);
    assert_eq!(print_of(acc.alpha), native(3.0));

    let mut acc = Layer { color: rgb(3, 40000, 0), alpha: Num::ratio(1, 3) };
    compose(&mut acc, rgb(7, 65535, 1), Num::ratio(5, 4));
    let (ca, a) = (1.25f32, 1.0f32 / 3.0);
    let na = ca + a * (1.0 - ca);
    let blend = |c: f32, o: f32| (c * ca + o * a * (1.0 - ca)) / na;
    assert_eq!(print_of(acc.alpha), native(na));
    assert_eq!(
        parts(acc.color),
        [native(blend(7.0, 3.0)), native(blend(65535.0, 40000.0)), native(blend(1.0, 0.0))]
    );
}
