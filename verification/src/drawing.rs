//! What the tray icon is drawn of: how colours mix, how far a ring reaches, and how
//! layers cover each other.
use crate::config::TunnelStatusView;
use crate::icon::{blank, channel, compose_spec, ellipse_u_spec, grad_t_spec, icon_spec, mix};
use crate::icon::{lerp3_spec, palette_spec, part_byte, pixel_spec, ring_cov_spec, LayerView};
use crate::icon::RgbView;
use crate::number::{add_spec, div_spec, exact, half_past_spec, le, min_spec, mul_spec};
use crate::number::{lemma_exact_stays, lemma_floor_sqrt_unique, lemma_rounded_value, one, rounded};
use crate::number::{lemma_rounded_zero, lemma_whole_is_exact, size_spec, sqrt_spec, sub_spec};
use crate::number::{round24, rounded_root, whole_spec, Value};
use crate::precision::{clamping_stays_within_bounds, lemma_round24, order_does_not_matter};
use vstd::arithmetic::power2::{lemma2_to64, lemma_pow2_adds, lemma_pow2_pos, pow2};
use vstd::prelude::*;

verus! {

/// Whether a colour has these parts.
pub open spec fn is_colour(c: RgbView, r: nat, g: nat, b: nat) -> bool {
    c.r == whole_spec(r) && c.g == whole_spec(g) && c.b == whole_spec(b)
}

/// The colours of each status, whatever the reason of an error.
pub proof fn each_status_has_its_colours(reason: Seq<char>)
    ensures
        ({
            let p = palette_spec(TunnelStatusView::Connected);
            &&& is_colour(p.top, 118, 255, 192)
            &&& is_colour(p.bot, 0, 133, 88)
            &&& is_colour(p.core, 0, 220, 140)
            &&& is_colour(p.core_b, 236, 255, 247)
            &&& is_colour(p.glow, 0, 230, 150)
        }),
        ({
            let p = palette_spec(TunnelStatusView::Connecting);
            &&& is_colour(p.top, 255, 222, 138)
            &&& is_colour(p.bot, 190, 124, 18)
            &&& is_colour(p.core, 255, 205, 96)
            &&& is_colour(p.core_b, 255, 246, 220)
            &&& is_colour(p.glow, 255, 205, 90)
        }),
        ({
            let p = palette_spec(TunnelStatusView::Disconnected);
            &&& is_colour(p.top, 150, 153, 161)
            &&& is_colour(p.bot, 58, 61, 70)
            &&& is_colour(p.core, 118, 128, 150)
            &&& is_colour(p.core_b, 224, 227, 233)
            &&& is_colour(p.glow, 126, 136, 158)
        }),
        ({
            let p = palette_spec(TunnelStatusView::Error(reason));
            &&& is_colour(p.top, 255, 128, 126)
            &&& is_colour(p.bot, 172, 28, 30)
            &&& is_colour(p.core, 255, 92, 90)
            &&& is_colour(p.core_b, 255, 228, 224)
            &&& is_colour(p.glow, 255, 85, 85)
        }),
{
}

/// The icon holds its pixels row by row, each as red, green, blue and opacity.
pub proof fn icon_is_row_by_row(status: TunnelStatusView, px: int, py: int)
    requires
        0 <= px < 24,
        0 <= py < 24,
    ensures
        ({
            let bytes = icon_spec(status);
            let l = pixel_spec(palette_spec(status), px, py);
            let i = 4 * (24 * py + px);
            &&& bytes.len() == 4 * 24 * 24
            &&& bytes[i] == part_byte(l.color.r)
            &&& bytes[i + 1] == part_byte(l.color.g)
            &&& bytes[i + 2] == part_byte(l.color.b)
            &&& bytes[i + 3] == part_byte(mul_spec(l.alpha, whole_spec(255)))
        }),
{
    let i = 4 * (24 * py + px);
    assert forall|c: int| 0 <= c < 4 implies icon_spec(status)[i + c] == channel(
        pixel_spec(palette_spec(status), px, py),
        c,
    ) by {
        assert((i + c) / 4 % 24 == px && (i + c) / 96 == py && (i + c) % 4 == c);
    }
    assert(icon_spec(status)[i + 0] == part_byte(
        pixel_spec(palette_spec(status), px, py).color.r,
    ));
}

/// A number is itself once, and itself divided by itself is 1.
proof fn lemma_once(m: nat)
    requires
        m > 0,
    ensures
        exact(whole_spec(1)),
        whole_spec(1) == (Value::Finite { negative: false, units: one() }),
        whole_spec(0) == (Value::Finite { negative: false, units: 0 }),
        rounded(false, m * one(), m) == whole_spec(1),
{
    let w = one();
    let step = pow2(126);
    lemma_whole_is_exact(1);
    lemma_pow2_pos(149);
    lemma_pow2_pos(126);
    lemma2_to64();
    lemma_pow2_adds(23, 126);
    assert(1 * w == w);
    assert(0 * w == 0);
    assert((m * w) / m == w) by (nonlinear_arith)
        requires
            m > 0,
    ;
    let unit = m * step;
    assert(0x80_0000 * unit == m * w) by (nonlinear_arith)
        requires
            unit == m * step,
            w == 0x80_0000 * step,
    ;
    assert(unit > 0) by (nonlinear_arith)
        requires
            unit == m * step,
            m > 0,
            step > 0,
    ;
    lemma_rounded_value(m * w, m, 126, step, unit, 0x80_0000);
}

/// None of the way from one colour part to another is the first, and all of the way
/// is the second.
pub proof fn mixing_goes_from_one_to_the_other(a: nat, b: nat)
    requires
        a <= 255,
        b <= 255,
    ensures
        mix(whole_spec(a), whole_spec(b), whole_spec(0)) == whole_spec(a),
        mix(whole_spec(a), whole_spec(b), whole_spec(1)) == whole_spec(b),
{
    let w = one();
    lemma_once(1);
    lemma_pow2_pos(149);
    lemma_rounded_zero(false, w);
    lemma_rounded_zero(true, w);
    lemma_whole_is_exact(a);
    lemma_whole_is_exact(b);
    lemma_exact_stays(false, a * w);
    lemma_exact_stays(false, b * w);
    let d = sub_spec(whole_spec(b), whole_spec(a));
    if b >= a {
        let e = (b - a) as nat;
        lemma_whole_is_exact(e);
        lemma_exact_stays(false, e * w);
        assert(b * w - a * w == e * w) by (nonlinear_arith)
            requires
                e == b - a,
        ;
        if e == 0 {
            assert(e * w == 0) by (nonlinear_arith)
                requires
                    e == 0,
            ;
        } else {
            assert(e * w > 0) by (nonlinear_arith)
                requires
                    e > 0,
                    w > 0,
            ;
        }
        assert(d == (Value::Finite { negative: false, units: e * w }));
        assert((e * w) * 0 == 0) by (nonlinear_arith);
        if b == 0 {
            assert(a * w == 0 && b * w == 0) by (nonlinear_arith)
                requires
                    a == 0,
                    b == 0,
            ;
        }
    } else {
        let e = (a - b) as nat;
        lemma_whole_is_exact(e);
        lemma_exact_stays(true, e * w);
        assert(a * w - b * w == e * w) by (nonlinear_arith)
            requires
                e == a - b,
        ;
        assert(e * w > 0) by (nonlinear_arith)
            requires
                e > 0,
                w > 0,
        ;
        assert(d == (Value::Finite { negative: true, units: e * w }));
        assert((e * w) * 0 == 0) by (nonlinear_arith);
        assert(mul_spec(d, whole_spec(1)) == d);
        if b == 0 {
            assert(b * w == 0) by (nonlinear_arith)
                requires
                    b == 0,
            ;
        }
    }
    assert(mul_spec(d, whole_spec(1)) == d);
    if a > 0 {
        assert(a * w > 0) by (nonlinear_arith)
            requires
                a > 0,
                w > 0,
        ;
    } else {
        assert(a * w == 0) by (nonlinear_arith)
            requires
                a == 0,
        ;
    }
    if b > 0 {
        assert(b * w > 0) by (nonlinear_arith)
            requires
                b > 0,
                w > 0,
        ;
    }
}

/// The parts of a colour are mixed each by itself, and all alike.
pub proof fn parts_are_mixed_alike(a: RgbView, b: RgbView, t: Value)
    ensures
        lerp3_spec(a, b, t).r == mix(a.r, b.r, t),
        lerp3_spec(a, b, t).g == mix(a.g, b.g, t),
        lerp3_spec(a, b, t).b == mix(a.b, b.b, t),
{
}

/// The two axes count alike: a distance is the same where they are exchanged.
pub proof fn axes_count_alike(x: Value, y: Value, cx: Value, cy: Value, rx: Value, ry: Value)
    ensures
        ellipse_u_spec(x, y, cx, cy, rx, ry) == ellipse_u_spec(y, x, cy, cx, ry, rx),
{
    reveal(ellipse_u_spec);
    let dx = div_spec(sub_spec(x, cx), rx);
    let dy = div_spec(sub_spec(y, cy), ry);
    order_does_not_matter(mul_spec(dx, dx), mul_spec(dy, dy));
}

/// Whether a value is zero, with either sign.
pub open spec fn is_zero(v: Value) -> bool {
    v matches Value::Finite { negative, units } && units == 0
}

/// Whether a value is finite and greater than zero.
pub open spec fn is_positive(v: Value) -> bool {
    v matches Value::Finite { negative, units } && !negative && units > 0
}

/// The root of 1 is 1.
proof fn lemma_root_of_one()
    ensures
        sqrt_spec(whole_spec(1)) == whole_spec(1),
{
    let w = one();
    lemma_once(2);
    lemma_pow2_pos(149);
    let n = w * w;
    assert(w * w <= n < (w + 1) * (w + 1)) by (nonlinear_arith)
        requires
            n == w * w,
    ;
    lemma_floor_sqrt_unique(n, w);
    assert(rounded_root(w) == rounded(false, 2 * w, 2));
}

/// The distance is 0 in the middle of an ellipse and 1 on its edge, where an axis
/// meets it.
pub proof fn distance_is_one_on_the_edge(
    x: Value,
    y: Value,
    cx: Value,
    cy: Value,
    rx: Value,
    ry: Value,
)
    requires
        is_positive(rx),
        is_positive(ry),
        is_zero(sub_spec(y, cy)),
    ensures
        is_zero(sub_spec(x, cx)) ==> ellipse_u_spec(x, y, cx, cy, rx, ry) == whole_spec(0),
        sub_spec(x, cx) == rx ==> ellipse_u_spec(x, y, cx, cy, rx, ry) == whole_spec(1),
{
    reveal(ellipse_u_spec);
    let w = one();
    lemma_pow2_pos(149);
    lemma_once(rx->units);
    lemma_exact_stays(false, w);
    assert(0 * w == 0);
    assert(0 * 0nat == 0);
    lemma_rounded_zero(false, w);
    lemma_rounded_zero(false, rx->units);
    lemma_rounded_zero(true, rx->units);
    lemma_rounded_zero(false, ry->units);
    lemma_rounded_zero(true, ry->units);
    let dx = div_spec(sub_spec(x, cx), rx);
    let dy = div_spec(sub_spec(y, cy), ry);
    assert(is_zero(dy));
    assert(mul_spec(dy, dy) == whole_spec(0));
    if is_zero(sub_spec(x, cx)) {
        assert(is_zero(dx));
        assert(mul_spec(dx, dx) == whole_spec(0));
    }
    if sub_spec(x, cx) == rx {
        assert(dx == whole_spec(1));
        assert(mul_spec(dx, dx) == whole_spec(1));
        assert(add_spec(whole_spec(1), whole_spec(0)) == whole_spec(1));
        lemma_root_of_one();
    }
}

/// How much a ring covers lies between nothing and all.
pub proof fn coverage_lies_between_nothing_and_all(
    x: Value,
    y: Value,
    cx: Value,
    cy: Value,
    rx: Value,
    ry: Value,
    hw: Value,
)
    ensures
        ({
            let c = ring_cov_spec(x, y, cx, cy, rx, ry, hw);
            !(c is Nan) ==> le(whole_spec(0), c) && le(c, whole_spec(1))
        }),
{
    lemma_once(1);
    let off = size_spec(sub_spec(ellipse_u_spec(x, y, cx, cy, rx, ry), whole_spec(1)));
    let pd = mul_spec(off, min_spec(rx, ry));
    clamping_stays_within_bounds(
        sub_spec(add_spec(hw, half_past_spec(0)), pd),
        whole_spec(0),
        whole_spec(1),
    );
}

/// On the line of a ring its half width and half a pixel cover, and so all is covered
/// where these make up a whole one; where the line is further away than that,
/// nothing is.
pub proof fn ring_covers_its_line(
    x: Value,
    y: Value,
    cx: Value,
    cy: Value,
    rx: Value,
    ry: Value,
    hw: Value,
)
    requires
        is_positive(rx),
        is_positive(ry),
        is_positive(add_spec(hw, half_past_spec(0))),
        exact(add_spec(hw, half_past_spec(0))),
    ensures
        ({
            let u = ellipse_u_spec(x, y, cx, cy, rx, ry);
            let reach = add_spec(hw, half_past_spec(0));
            let away = mul_spec(size_spec(sub_spec(u, whole_spec(1))), min_spec(rx, ry));
            let c = ring_cov_spec(x, y, cx, cy, rx, ry, hw);
            &&& u == whole_spec(1) && le(whole_spec(1), reach) ==> c == whole_spec(1)
            &&& u == whole_spec(1) && le(reach, whole_spec(1)) ==> c == reach
            &&& away is Finite && le(reach, away) ==> c == whole_spec(0)
        }),
{
    let w = one();
    lemma_pow2_pos(149);
    lemma_once(1);
    let u = ellipse_u_spec(x, y, cx, cy, rx, ry);
    let reach = add_spec(hw, half_past_spec(0));
    let away = mul_spec(size_spec(sub_spec(u, whole_spec(1))), min_spec(rx, ry));
    if u == whole_spec(1) {
        assert(sub_spec(u, whole_spec(1)) == whole_spec(0));
        let m = min_spec(rx, ry);
        assert(is_positive(m));
        assert(0 * m->units == 0) by (nonlinear_arith);
        lemma_rounded_zero(false, w);
        assert(away == whole_spec(0));
        lemma_exact_stays(false, reach->units);
        assert(sub_spec(reach, away) == reach);
        if le(whole_spec(1), reach) && le(reach, whole_spec(1)) {
            assert(reach == whole_spec(1));
        }
    }
    if away is Finite && le(reach, away) {
        let n = (away->units - reach->units) as nat;
        if n > 0 {
            let (j, k) = lemma_round24(n, 1);
            let step = pow2(j);
            lemma_pow2_pos(j);
            lemma2_to64();
            assert(round24(n, 1) > 0);
            lemma_pow2_pos(277);
        }
    }
}

/// The way down a ring is 0 at its top and 1 at its bottom, and never beyond.
pub proof fn shade_goes_from_top_to_bottom(y: Value, cy: Value, ry: Value)
    requires
        is_positive(mul_spec(whole_spec(2), ry)),
    ensures
        ({
            let t = grad_t_spec(y, cy, ry);
            &&& !(t is Nan) ==> le(whole_spec(0), t) && le(t, whole_spec(1))
            &&& y is Finite && y == sub_spec(cy, ry) ==> t == whole_spec(0)
            &&& sub_spec(y, sub_spec(cy, ry)) == mul_spec(whole_spec(2), ry) ==> t == whole_spec(1)
        }),
{
    let height = mul_spec(whole_spec(2), ry);
    let down = sub_spec(y, sub_spec(cy, ry));
    lemma_pow2_pos(149);
    lemma_once(height->units);
    clamping_stays_within_bounds(div_spec(down, height), whole_spec(0), whole_spec(1));
    if y is Finite && y == sub_spec(cy, ry) {
        assert(down == (Value::Finite { negative: false, units: 0 }));
        assert(0 * one() == 0);
        lemma_rounded_zero(false, height->units);
    }
}

/// The edge of a ring is soft: what lies within its reach is covered by what is left
/// of the reach, up to all of it; and the way down a ring is in proportion to its
/// height.
pub proof fn edges_are_soft(
    x: Value,
    y: Value,
    cx: Value,
    cy: Value,
    rx: Value,
    ry: Value,
    hw: Value,
)
    ensures
        ({
            let u = ellipse_u_spec(x, y, cx, cy, rx, ry);
            let reach = add_spec(hw, half_past_spec(0));
            let away = mul_spec(size_spec(sub_spec(u, whole_spec(1))), min_spec(rx, ry));
            let left = sub_spec(reach, away);
            let c = ring_cov_spec(x, y, cx, cy, rx, ry, hw);
            le(whole_spec(0), left) && le(left, whole_spec(1)) ==> c == left
        }),
        ({
            let down = div_spec(sub_spec(y, sub_spec(cy, ry)), mul_spec(whole_spec(2), ry));
            le(whole_spec(0), down) && le(down, whole_spec(1)) ==> grad_t_spec(y, cy, ry) == down
        }),
{
}

/// A layer that does not cover leaves what is below as it is.
pub proof fn clear_layer_changes_nothing(acc: LayerView, col: RgbView, ca: Value)
    requires
        le(ca, whole_spec(0)),
    ensures
        compose_spec(acc, col, ca) == acc,
{
}

/// The opacity of layers together does not depend on their colours, and the order of
/// the colour parts does not matter: each goes by itself.
pub proof fn parts_are_laid_alike(acc: LayerView, col: RgbView, ca: Value, other: RgbView)
    ensures
        compose_spec(acc, other, ca).alpha == compose_spec(acc, col, ca).alpha,
        ({
            let turned = compose_spec(
                LayerView {
                    color: RgbView { r: acc.color.g, g: acc.color.b, b: acc.color.r },
                    alpha: acc.alpha,
                },
                RgbView { r: col.g, g: col.b, b: col.r },
                ca,
            );
            let straight = compose_spec(acc, col, ca);
            &&& turned.alpha == straight.alpha
            &&& turned.color.r == straight.color.g
            &&& turned.color.g == straight.color.b
            &&& turned.color.b == straight.color.r
        }),
        other.r == col.r ==> compose_spec(acc, other, ca).color.r == compose_spec(
            acc,
            col,
            ca,
        ).color.r,
{
}

/// Over nothing a layer is as opaque as itself.
pub proof fn first_layer_keeps_its_opacity(col: RgbView, ca: Value)
    requires
        is_positive(ca),
        exact(ca),
        sub_spec(whole_spec(1), ca) is Finite,
    ensures
        compose_spec(blank(), col, ca).alpha == ca,
{
    let w = one();
    lemma_pow2_pos(149);
    lemma_once(1);
    let rest = sub_spec(whole_spec(1), ca);
    assert(0 * rest->units == 0) by (nonlinear_arith);
    lemma_rounded_zero(false, w);
    lemma_rounded_zero(true, w);
    lemma_exact_stays(false, ca->units);
}

/// How opaque two layers are together, and what their colours come to: the upper one
/// counts by its own opacity, and the lower one by its own and by what the upper one
/// lets through.
pub proof fn layers_are_weighted(acc: LayerView, col: RgbView, ca: Value)
    requires
        !le(ca, whole_spec(0)),
    ensures
        ({
            let clear = sub_spec(whole_spec(1), ca);
            let together = add_spec(ca, mul_spec(acc.alpha, clear));
            let r = compose_spec(acc, col, ca);
            &&& le(together, whole_spec(0)) ==> r == acc
            &&& !le(together, whole_spec(0)) ==> {
                &&& r.alpha == together
                &&& r.color.r == div_spec(
                    add_spec(
                        mul_spec(col.r, ca),
                        mul_spec(mul_spec(acc.color.r, acc.alpha), clear),
                    ),
                    together,
                )
                &&& r.color.g == div_spec(
                    add_spec(
                        mul_spec(col.g, ca),
                        mul_spec(mul_spec(acc.color.g, acc.alpha), clear),
                    ),
                    together,
                )
                &&& r.color.b == div_spec(
                    add_spec(
                        mul_spec(col.b, ca),
                        mul_spec(mul_spec(acc.color.b, acc.alpha), clear),
                    ),
                    together,
                )
            }
        }),
{
}

/// A mixture lies where it should: what it is away from the first is the given share
/// of the way to the second.
pub proof fn mixture_is_a_share_of_the_way(a: Value, b: Value, t: Value)
    ensures
        mix(a, b, t) == add_spec(a, mul_spec(sub_spec(b, a), t)),
{
}

/// A distance is the root of the squares of the distances along the axes, each in
/// terms of its half axis.
pub proof fn distance_is_that_of_the_squares(
    x: Value,
    y: Value,
    cx: Value,
    cy: Value,
    rx: Value,
    ry: Value,
)
    ensures
        ({
            let dx = div_spec(sub_spec(x, cx), rx);
            let dy = div_spec(sub_spec(y, cy), ry);
            ellipse_u_spec(x, y, cx, cy, rx, ry) == sqrt_spec(
                add_spec(mul_spec(dx, dx), mul_spec(dy, dy)),
            )
        }),
{
    reveal(ellipse_u_spec);
}

} // verus!
