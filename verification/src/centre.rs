//! The middle of the icon, worked out, and what follows from it: the icon tells the
//! statuses apart.
use crate::config::TunnelStatusView;
use crate::fixed::{below, fixed, fixed_one, lemma_add_below, lemma_div_below, lemma_fixed_add};
use crate::fixed::{lemma_fixed_div, lemma_fixed_is_exact, lemma_fixed_mul, lemma_fixed_ratio};
use crate::fixed::{lemma_fixed_sqrt, lemma_fixed_whole, lemma_mul_below};
use crate::icon::{blank, centre, compose_spec, core_alpha, core_tint, core_u, ellipse_u_spec};
use crate::icon::{glow_alpha, icon_spec, is_drawn, is_part, lerp3_spec, middle, mix};
use crate::icon::{opaque_layer_covers, palette_spec, part_byte, pixel_spec, ring_over};
use crate::icon::{LayerView, PaletteView, RgbView};
use crate::number::{add_spec, clamp_spec, div_spec, exact, le, lemma_exact_stays};
use crate::number::{lemma_rounded_zero, lemma_whole_is_exact, lt, mul_spec, negated, one};
use crate::number::{ratio_spec, sqrt_spec, sub_spec, whole_spec, Value};
use vstd::arithmetic::power2::{lemma2_to64, lemma2_to64_rest, lemma_pow2_adds, lemma_pow2_pos};
use vstd::arithmetic::power2::{lemma_pow2_strictly_increases, pow2};
use vstd::prelude::*;

verus! {

/// Of two numbers in units of 2^-48.
proof fn lemma_in_order(a: nat, b: nat)
    requires
        a < b,
    ensures
        lt(fixed(false, a), fixed(false, b)),
        le(fixed(false, a), fixed(false, b)),
        !le(fixed(false, b), fixed(false, a)),
{
    lemma_pow2_pos(101);
    let p = pow2(101);
    assert(a * p < b * p) by (nonlinear_arith)
        requires
            a < b,
            p > 0,
    ;
}

/// What is below zero is brought up to it.
proof fn lemma_sign(a: nat)
    requires
        a > 0,
    ensures
        clamp_spec(fixed(true, a), whole_spec(0), whole_spec(1)) == whole_spec(0),
{
    lemma_pow2_pos(101);
    let p = pow2(101);
    assert(a * p > 0) by (nonlinear_arith)
        requires
            a > 0,
            p > 0,
    ;
    assert(0 * one() == 0);
}

/// The distance of the pixel next to the icon's middle, in terms of an ellipse about
/// that middle with half axes in tenths.
spec fn distance_in_the_middle(rx: nat, ry: nat) -> Value {
    ellipse_u_spec(
        centre(12),
        centre(12),
        middle(),
        middle(),
        ratio_spec(rx, 10),
        ratio_spec(ry, 10),
    )
}

proof fn lemma_offset_in_the_middle()
    ensures
        sub_spec(centre(12), middle()) == fixed(false, 0x8000_0000_0000),
{
    lemma2_to64();
    lemma_fixed_whole(12);
    lemma_fixed_add(
        false,
        3518437208883200,
        true,
        3377699720527872,
        false,
        140737488355328,
        24,
        0x1000000,
        8388608,
    );
}

/// A square root in units of 2^-48, from that of `n`.
proof fn lemma_root(a: nat, n: nat, s: nat, j: nat, step: nat, k: nat)
    requires
        a > 0,
        n == a * fixed_one(),
        s * s <= n,
        n <= s * s + 2 * s,
        j <= 100,
        step == pow2(j),
        0x80_0000 * step <= s,
        s + 1 <= 0x100_0000 * step,
        -step < 2 * (s - k * step),
        2 * (s + 1 - k * step) < step,
        k <= 0x100_0000,
    ensures
        sqrt_spec(fixed(false, a)) == fixed(false, k * step),
{
    assert((s + 1) * (s + 1) == s * s + 2 * s + 1) by (nonlinear_arith);
    lemma_fixed_sqrt(a, s, j, step, k);
}

proof fn lemma_glow_distance()
    ensures
        distance_in_the_middle(81, 57) == fixed(false, 30191480995840),
{
    reveal(ellipse_u_spec);
    lemma2_to64();
    lemma2_to64_rest();
    lemma_offset_in_the_middle();
    lemma_fixed_ratio(81, 10, 28, 0x10000000, 2684354560, 8493466);
    lemma_fixed_ratio(57, 10, 27, 0x8000000, 1342177280, 11953766);
    lemma_fixed_div(
        false,
        140737488355328,
        false,
        2279947418730496,
        20,
        0x100000,
        2390698144542748573696,
        16570089,
    );
    lemma_fixed_div(
        false,
        140737488355328,
        false,
        1604407313563648,
        21,
        0x200000,
        3364686006454631530496,
        11773485,
    );
    lemma_fixed_mul(
        false,
        17374997643264,
        false,
        17374997643264,
        16,
        0x10000,
        18446744073709551616,
        16365519,
    );
    lemma_fixed_mul(
        false,
        24690787614720,
        false,
        24690787614720,
        17,
        0x20000,
        36893488147419103232,
        16524190,
    );
    lemma_fixed_add(
        false,
        1072530653184,
        false,
        2165858631680,
        false,
        3238389284864,
        18,
        0x40000,
        12353475,
    );
    lemma_root(3238389350400, 911525566983876412597862400, 30191481695734, 21, 0x200000, 14396420);
}

proof fn lemma_outer_ring_distance()
    ensures
        distance_in_the_middle(116, 97) == fixed(false, 18913228226560),
{
    reveal(ellipse_u_spec);
    lemma2_to64();
    lemma2_to64_rest();
    lemma_offset_in_the_middle();
    lemma_fixed_ratio(116, 10, 28, 0x10000000, 2684354560, 12163482);
    lemma_fixed_ratio(97, 10, 28, 0x10000000, 2684354560, 10171187);
    lemma_fixed_div(
        false,
        140737488355328,
        false,
        3265109837217792,
        20,
        0x100000,
        3423715812670483464192,
        11570493,
    );
    lemma_fixed_div(
        false,
        140737488355328,
        false,
        2730307220406272,
        20,
        0x100000,
        2862934623944727068672,
        13836879,
    );
    lemma_fixed_mul(
        false,
        12132541267968,
        false,
        12132541267968,
        15,
        0x8000,
        9223372036854775808,
        15959300,
    );
    lemma_fixed_mul(
        false,
        14509019234304,
        false,
        14509019234304,
        16,
        0x10000,
        18446744073709551616,
        11411859,
    );
    lemma_fixed_add(
        false,
        522954342400,
        false,
        747887591424,
        false,
        1270841933824,
        17,
        0x20000,
        9695754,
    );
    lemma_root(1270841868288, 357710185279291359838076928, 18913227785845, 21, 0x200000, 9018530);
}

proof fn lemma_second_ring_distance()
    ensures
        distance_in_the_middle(87, 73) == fixed(false, 25166849507328),
{
    reveal(ellipse_u_spec);
    lemma2_to64();
    lemma2_to64_rest();
    lemma_offset_in_the_middle();
    lemma_fixed_ratio(87, 10, 28, 0x10000000, 2684354560, 9122611);
    lemma_fixed_ratio(73, 10, 27, 0x8000000, 1342177280, 15309210);
    lemma_fixed_div(
        false,
        140737488355328,
        false,
        2448832243695616,
        20,
        0x100000,
        2567786718765374242816,
        15427325,
    );
    lemma_fixed_div(
        false,
        140737488355328,
        false,
        2054767383674880,
        21,
        0x200000,
        4309159528208541941760,
        9192995,
    );
    lemma_fixed_mul(
        false,
        16176722739200,
        false,
        16176722739200,
        16,
        0x10000,
        18446744073709551616,
        14186046,
    );
    lemma_fixed_mul(
        false,
        19279107850240,
        false,
        19279107850240,
        17,
        0x20000,
        36893488147419103232,
        10074515,
    );
    lemma_fixed_add(
        false,
        929696710656,
        false,
        1320486830080,
        false,
        2250183540736,
        18,
        0x40000,
        8583769,
    );
    lemma_root(2250183540736, 633370359723367056661282816, 25166850413259, 21, 0x200000, 12000489);
}

proof fn lemma_inner_ring_distance()
    ensures
        distance_in_the_middle(57, 48) == fixed(false, 38331651981312),
{
    reveal(ellipse_u_spec);
    lemma2_to64();
    lemma2_to64_rest();
    lemma_offset_in_the_middle();
    lemma_fixed_ratio(57, 10, 27, 0x8000000, 1342177280, 11953766);
    lemma_fixed_ratio(48, 10, 27, 0x8000000, 1342177280, 10066330);
    lemma_fixed_div(
        false,
        140737488355328,
        false,
        1604407313563648,
        21,
        0x200000,
        3364686006454631530496,
        11773485,
    );
    lemma_fixed_div(
        false,
        140737488355328,
        false,
        1351079941898240,
        21,
        0x200000,
        2833420002311777812480,
        13981013,
    );
    lemma_fixed_mul(
        false,
        24690787614720,
        false,
        24690787614720,
        17,
        0x20000,
        36893488147419103232,
        16524190,
    );
    lemma_fixed_mul(
        false,
        29320309374976,
        false,
        29320309374976,
        18,
        0x40000,
        73786976294838206464,
        11650844,
    );
    lemma_fixed_add(
        false,
        2165858631680,
        false,
        3054198849536,
        false,
        5220057481216,
        19,
        0x80000,
        9956470,
    );
    lemma_root(5220057743360, 1469315631740535515025244160, 38331653130807, 22, 0x400000, 9138978);
}

proof fn lemma_core_distance()
    ensures
        distance_in_the_middle(43, 23) == fixed(false, 69393606246400),
{
    reveal(ellipse_u_spec);
    lemma2_to64();
    lemma2_to64_rest();
    lemma_offset_in_the_middle();
    lemma_fixed_ratio(43, 10, 27, 0x8000000, 1342177280, 9017754);
    lemma_fixed_ratio(23, 10, 26, 0x4000000, 671088640, 9646899);
    lemma_fixed_div(
        false,
        140737488355328,
        false,
        1210342453542912,
        21,
        0x200000,
        2538272097132424986624,
        15606712,
    );
    lemma_fixed_div(
        false,
        140737488355328,
        false,
        647392433012736,
        22,
        0x400000,
        2715360671355050655744,
        14588884,
    );
    lemma_fixed_mul(
        false,
        32729647284224,
        false,
        32729647284224,
        18,
        0x40000,
        73786976294838206464,
        14517871,
    );
    lemma_fixed_mul(
        false,
        61190214516736,
        false,
        61190214516736,
        20,
        0x100000,
        295147905179352825856,
        12685987,
    );
    lemma_fixed_add(
        false,
        3805772775424,
        false,
        13302221504512,
        false,
        17107994279936,
        20,
        0x100000,
        16315455,
    );
    lemma_root(
        17107994542080,
        4815472365297997959376404480,
        69393604642632,
        22,
        0x400000,
        16544725,
    );
}

proof fn lemma_glow_in_the_middle()
    ensures
        glow_alpha(centre(12), centre(12)) == fixed(false, 117293963018240),
{
    lemma2_to64();
    lemma2_to64_rest();
    lemma_pow2_pos(101);
    lemma_fixed_whole(0);
    lemma_fixed_whole(1);
    lemma_glow_distance();
    lemma_fixed_ratio(145, 100, 25, 0x2000000, 3355443200, 12163482);
    lemma_fixed_ratio(45, 100, 23, 0x800000, 838860800, 15099494);
    lemma_fixed_div(
        false,
        30191480995840,
        false,
        408138729652224,
        21,
        0x200000,
        855928953167620866048,
        9928565,
    );
    lemma_fixed_add(
        false,
        281474976710656,
        true,
        20821709946880,
        false,
        260653266763776,
        24,
        0x1000000,
        15536145,
    );
    lemma_fixed_mul(
        false,
        126663736164352,
        false,
        260653260472320,
        23,
        0x800000,
        2361183241434822606848,
        13982530,
    );
    lemma_in_order(117293963018240, 281474976710656);
    assert(0 * pow2(101) == 0);
}

proof fn lemma_outer_ring_misses_the_middle(acc: LayerView, p: PaletteView)
    ensures
        ring_over(acc, p, centre(12), centre(12), 116, 97, 145) == acc,
{
    lemma2_to64();
    lemma2_to64_rest();
    lemma_pow2_pos(101);
    lemma_fixed_whole(0);
    lemma_fixed_whole(1);
    lemma_outer_ring_distance();
    lemma_fixed_ratio(116, 10, 28, 0x10000000, 2684354560, 12163482);
    lemma_fixed_ratio(97, 10, 28, 0x10000000, 2684354560, 10171187);
    lemma_fixed_ratio(145, 100, 25, 0x2000000, 3355443200, 12163482);
    lemma_fixed_add(
        false,
        18913228226560,
        true,
        281474976710656,
        true,
        262561748484096,
        24,
        0x1000000,
        15649900,
    );
    lemma_in_order(2730307220406272, 3265109837217792);
    lemma_fixed_mul(
        false,
        262561752678400,
        false,
        2730307220406272,
        28,
        0x10000000,
        75557863725914323419136,
        9487752,
    );
    lemma_fixed_add(
        false,
        408138729652224,
        false,
        140737488355328,
        false,
        548876218007552,
        25,
        0x2000000,
        16357786,
    );
    lemma_fixed_add(
        false,
        548876218007552,
        true,
        2546849034534912,
        true,
        1997972816527360,
        27,
        0x8000000,
        14886058,
    );
    lemma_sign(1997972883636224);
    assert(0 * pow2(101) == 0);
    assert(0 * one() == 0);
}

proof fn lemma_second_ring_misses_the_middle(acc: LayerView, p: PaletteView)
    ensures
        ring_over(acc, p, centre(12), centre(12), 87, 73, 115) == acc,
{
    lemma2_to64();
    lemma2_to64_rest();
    lemma_pow2_pos(101);
    lemma_fixed_whole(0);
    lemma_fixed_whole(1);
    lemma_second_ring_distance();
    lemma_fixed_ratio(87, 10, 28, 0x10000000, 2684354560, 9122611);
    lemma_fixed_ratio(73, 10, 27, 0x8000000, 1342177280, 15309210);
    lemma_fixed_ratio(115, 100, 25, 0x2000000, 3355443200, 9646899);
    lemma_fixed_add(
        false,
        25166849507328,
        true,
        281474976710656,
        true,
        256308127203328,
        24,
        0x1000000,
        15277155,
    );
    lemma_in_order(2054767383674880, 2448832243695616);
    lemma_fixed_mul(
        false,
        256308129300480,
        false,
        2054767383674880,
        27,
        0x8000000,
        37778931862957161709568,
        13940404,
    );
    lemma_fixed_add(
        false,
        323696216506368,
        false,
        140737488355328,
        false,
        464433704861696,
        25,
        0x2000000,
        13841203,
    );
    lemma_fixed_add(
        false,
        464433704861696,
        true,
        1871049352282112,
        true,
        1406615647420416,
        27,
        0x8000000,
        10480103,
    );
    lemma_sign(1406615613865984);
    assert(0 * pow2(101) == 0);
    assert(0 * one() == 0);
}

proof fn lemma_inner_ring_misses_the_middle(acc: LayerView, p: PaletteView)
    ensures
        ring_over(acc, p, centre(12), centre(12), 57, 48, 95) == acc,
{
    lemma2_to64();
    lemma2_to64_rest();
    lemma_pow2_pos(101);
    lemma_fixed_whole(0);
    lemma_fixed_whole(1);
    lemma_inner_ring_distance();
    lemma_fixed_ratio(57, 10, 27, 0x8000000, 1342177280, 11953766);
    lemma_fixed_ratio(48, 10, 27, 0x8000000, 1342177280, 10066330);
    lemma_fixed_ratio(95, 100, 24, 0x1000000, 1677721600, 15938355);
    lemma_fixed_add(
        false,
        38331651981312,
        true,
        281474976710656,
        true,
        243143324729344,
        24,
        0x1000000,
        14492472,
    );
    lemma_in_order(1351079941898240, 1604407313563648);
    lemma_fixed_mul(
        false,
        243143333117952,
        false,
        1351079941898240,
        27,
        0x8000000,
        37778931862957161709568,
        8695484,
    );
    lemma_fixed_add(
        false,
        267401224519680,
        false,
        140737488355328,
        false,
        408138712875008,
        25,
        0x2000000,
        12163482,
    );
    lemma_fixed_add(
        false,
        408138729652224,
        true,
        1167088106340352,
        true,
        758949376688128,
        26,
        0x4000000,
        11309227,
    );
    lemma_sign(758949376688128);
    assert(0 * pow2(101) == 0);
    assert(0 * one() == 0);
}

proof fn lemma_core_in_the_middle()
    ensures
        le(core_u(centre(12), centre(12)), ratio_spec(12, 10)),
        core_alpha(core_u(centre(12), centre(12))) == whole_spec(1),
        core_tint(core_u(centre(12), centre(12))) == whole_spec(0),
{
    lemma2_to64();
    lemma2_to64_rest();
    lemma_pow2_pos(101);
    lemma_fixed_whole(0);
    lemma_fixed_whole(1);
    lemma_core_distance();
    lemma_fixed_ratio(12, 10, 25, 0x2000000, 335544320, 10066330);
    lemma_fixed_ratio(25, 100, 23, 0x800000, 838860800, 8388608);
    lemma_fixed_ratio(45, 100, 23, 0x800000, 838860800, 15099494);
    lemma_fixed_ratio(55, 100, 24, 0x1000000, 1677721600, 9227469);
    lemma_fixed_add(
        false,
        337769985474560,
        true,
        69393606246400,
        false,
        268376379228160,
        24,
        0x1000000,
        15996479,
    );
    lemma_fixed_div(
        false,
        268376383422464,
        false,
        70368744177664,
        26,
        0x4000000,
        4722366482869645213696,
        15996479,
    );
    lemma_fixed_add(
        false,
        69393606246400,
        true,
        126663736164352,
        true,
        57270129917952,
        22,
        0x400000,
        13654263,
    );
    lemma_fixed_div(
        true,
        57270129917952,
        false,
        154811240546304,
        23,
        0x800000,
        1298650810936650104832,
        12412966,
    );
    lemma_in_order(69393606246400, 337769985474560);
    lemma_in_order(281474976710656, 1073505533689856);
    lemma_in_order(0, 1073505533689856);
    lemma_sign(104127505891328);
    assert(0 * pow2(101) == 0);
}


/// A glow over nothing is finite, and stays so where it is weighted.
proof fn lemma_glow_is_drawn(col: RgbView, v: nat)
    requires
        below(col.r, 157),
        below(col.g, 157),
        below(col.b, 157),
        0x4000_0000_0000 <= v < fixed_one(),
        exact(fixed(false, v)),
    ensures
        is_drawn(compose_spec(blank(), col, fixed(false, v))),
{
    let ca = fixed(false, v);
    let p = pow2(101);
    lemma2_to64_rest();
    lemma_pow2_pos(101);
    lemma_pow2_pos(149);
    lemma_pow2_adds(46, 101);
    lemma_pow2_adds(48, 101);
    lemma_pow2_strictly_increases(149, 157);
    assert(0x4000_0000_0000 * p <= v * p < 0x1_0000_0000_0000 * p) by (nonlinear_arith)
        requires
            0x4000_0000_0000 <= v < 0x1_0000_0000_0000,
            p > 0,
    ;
    assert(below(ca, 149));
    assert(0 * one() == 0);
    assert(1 * one() == one());
    lemma_rounded_zero(false, one());
    lemma_rounded_zero(true, one());
    let rest = sub_spec(whole_spec(1), ca);
    let zero = whole_spec(0);
    lemma_pow2_strictly_increases(149, 150);
    assert(below(whole_spec(1), 150));
    lemma_add_below(whole_spec(1), negated(ca), 150);
    assert(rest is Finite);
    assert(0 * rest->units == 0) by (nonlinear_arith);
    assert(0 * 0nat == 0);
    let nothing = mul_spec(zero, rest);
    assert(nothing is Finite && nothing->units == 0);
    assert(mul_spec(zero, zero) == zero);
    lemma_exact_stays(false, v * p);
    let na = add_spec(ca, nothing);
    assert(na == ca);
    lemma_blend_is_drawn(col.r, ca, nothing);
    lemma_blend_is_drawn(col.g, ca, nothing);
    lemma_blend_is_drawn(col.b, ca, nothing);
}

proof fn lemma_blend_is_drawn(part: Value, ca: Value, nothing: Value)
    requires
        below(part, 157),
        below(ca, 149),
        ca->units >= pow2(147),
        nothing is Finite,
        nothing->units == 0,
    ensures
        mul_spec(div_spec(add_spec(mul_spec(part, ca), nothing), ca), ca) is Finite,
{
    lemma_pow2_pos(158);
    lemma_mul_below(part, ca, 157, 149);
    lemma_add_below(mul_spec(part, ca), nothing, 158);
    lemma_div_below(add_spec(mul_spec(part, ca), nothing), ca, 160, 147);
    lemma_mul_below(div_spec(add_spec(mul_spec(part, ca), nothing), ca), ca, 163, 149);
}

/// At the middle of the icon the core is opaque and shows its innermost colour.
pub proof fn icon_centre_is_the_core(status: TunnelStatusView)
    ensures
        pixel_spec(palette_spec(status), 12, 12) == (LayerView {
            color: palette_spec(status).core_b,
            alpha: whole_spec(1),
        }),
{
    reveal(pixel_spec);
    let p = palette_spec(status);
    let x = centre(12);
    let behind = compose_spec(blank(), p.glow, glow_alpha(x, x));
    lemma_glow_in_the_middle();
    lemma_glow_is_a_number();
    lemma_palette_is_small(status);
    lemma_glow_is_drawn(p.glow, 117293963018240);
    lemma_outer_ring_misses_the_middle(behind, p);
    lemma_second_ring_misses_the_middle(behind, p);
    lemma_inner_ring_misses_the_middle(behind, p);
    lemma_core_in_the_middle();
    lemma_unmixed(p.core_b.r, p.core.r);
    lemma_unmixed(p.core_b.g, p.core.g);
    lemma_unmixed(p.core_b.b, p.core.b);
    assert(lerp3_spec(p.core_b, p.core, whole_spec(0)) == p.core_b);
    opaque_layer_covers(behind, p.core_b);
}

/// The glow's opacity in the middle is a number.
proof fn lemma_glow_is_a_number()
    ensures
        exact(fixed(false, 117293963018240)),
{
    lemma2_to64();
    lemma_fixed_is_exact(13982530, 23);
}

/// None of the way from `a` to `b` is `a`.
proof fn lemma_unmixed(a: Value, b: Value)
    requires
        is_part(a),
        below(a, 157),
        below(b, 157),
    ensures
        mix(a, b, whole_spec(0)) == a,
{
    lemma_pow2_pos(149);
    lemma_add_below(b, negated(a), 157);
    let d = sub_spec(b, a);
    assert(0 * one() == 0);
    assert(d->units * 0 == 0) by (nonlinear_arith);
    lemma_rounded_zero(false, one());
    lemma_rounded_zero(true, one());
    lemma_exact_stays(false, a->units);
}

proof fn lemma_palette_is_small(status: TunnelStatusView)
    ensures
        ({
            let p = palette_spec(status);
            &&& below(p.glow.r, 157) && below(p.glow.g, 157) && below(p.glow.b, 157)
            &&& below(p.core.r, 157) && below(p.core.g, 157) && below(p.core.b, 157)
            &&& below(p.core_b.r, 157) && below(p.core_b.g, 157) && below(p.core_b.b, 157)
            &&& is_part(p.core_b.r) && is_part(p.core_b.g) && is_part(p.core_b.b)
        }),
{
    assert forall|n: nat| n <= 255 implies below(#[trigger] whole_spec(n), 157) && is_part(
        whole_spec(n),
    ) by {
        lemma2_to64();
        lemma_pow2_adds(8, 149);
        lemma_pow2_pos(149);
        assert(n * one() < 256 * one()) by (nonlinear_arith)
            requires
                n <= 255,
                one() > 0,
        ;
        lemma_whole_is_exact(n);
    }
}

/// The byte of a small integer.
proof fn lemma_byte_of_whole(n: nat)
    requires
        n <= 255,
    ensures
        part_byte(whole_spec(n)) == n,
{
    let w = one();
    lemma_pow2_pos(149);
    assert(0 * w == 0);
    assert(0 <= n * w <= 255 * w) by (nonlinear_arith)
        requires
            n <= 255,
    ;
    assert((n * w) / w == n) by (nonlinear_arith)
        requires
            w > 0,
    ;
}

/// The icon tells the statuses apart: two kinds of status never look the same.
/// The reason of an error does not show.
pub proof fn icons_differ(a: TunnelStatusView, b: TunnelStatusView)
    ensures
        icon_spec(a) == icon_spec(b) <==> {
            ||| a == b
            ||| a is Error && b is Error
        },
{
    icon_centre_is_the_core(a);
    icon_centre_is_the_core(b);
    let i: int = 1200;
    assert(i / 4 % 24 == 12 && i / 96 == 12 && i % 4 == 0);
    assert((i + 1) / 4 % 24 == 12 && (i + 1) / 96 == 12 && (i + 1) % 4 == 1);
    assert(icon_spec(a)[i] == part_byte(palette_spec(a).core_b.r));
    assert(icon_spec(b)[i] == part_byte(palette_spec(b).core_b.r));
    assert(icon_spec(a)[i + 1] == part_byte(palette_spec(a).core_b.g));
    assert(icon_spec(b)[i + 1] == part_byte(palette_spec(b).core_b.g));
    lemma_byte_of_whole(236);
    lemma_byte_of_whole(255);
    lemma_byte_of_whole(224);
    lemma_byte_of_whole(246);
    lemma_byte_of_whole(227);
    lemma_byte_of_whole(228);
    if a is Error && b is Error {
        assert(icon_spec(a) =~= icon_spec(b));
    }
}

} // verus!
