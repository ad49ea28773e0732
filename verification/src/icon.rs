//! The tray icon: three rings round a bright core, tinted by a status.
use crate::config::{TunnelStatus, TunnelStatusView};
use crate::number::{add_spec, byte_spec, clamp_spec, div_spec, exact, half_past_spec, le};
use crate::number::{lemma_exact_stays, lemma_rounded_zero, lemma_whole_is_exact};
use crate::number::{min_spec, mul_spec, negated, one, ratio_spec, size_spec, sqrt_spec, sub_spec};
use crate::number::{whole_spec, Num, Value};
use vstd::arithmetic::power2::{lemma_pow2_pos, lemma_pow2_unfold, pow2};
use vstd::prelude::*;

verus! {

/// Pixels in a row, and rows.
pub const SIDE: u16 = 24;

/// A colour, each part from 0 to 255.
#[derive(Clone, Copy)]
pub struct Rgb {
    pub r: Num,
    pub g: Num,
    pub b: Num,
}

pub struct RgbView {
    pub r: Value,
    pub g: Value,
    pub b: Value,
}

impl View for Rgb {
    type V = RgbView;

    open spec fn view(&self) -> RgbView {
        RgbView { r: self.r@, g: self.g@, b: self.b@ }
    }
}

/// A colour with its opacity, from 0 to 1.
#[derive(Clone, Copy)]
pub struct Layer {
    pub color: Rgb,
    pub alpha: Num,
}

pub struct LayerView {
    pub color: RgbView,
    pub alpha: Value,
}

impl View for Layer {
    type V = LayerView;

    open spec fn view(&self) -> LayerView {
        LayerView { color: self.color@, alpha: self.alpha@ }
    }
}

/// The colours of one status: the rings from top to bottom, the core from rim
/// to centre, and the glow behind them.
pub struct Palette {
    pub top: Rgb,
    pub bot: Rgb,
    pub core: Rgb,
    pub core_b: Rgb,
    pub glow: Rgb,
}

pub struct PaletteView {
    pub top: RgbView,
    pub bot: RgbView,
    pub core: RgbView,
    pub core_b: RgbView,
    pub glow: RgbView,
}

impl View for Palette {
    type V = PaletteView;

    open spec fn view(&self) -> PaletteView {
        PaletteView {
            top: self.top@,
            bot: self.bot@,
            core: self.core@,
            core_b: self.core_b@,
            glow: self.glow@,
        }
    }
}

pub open spec fn rgb_spec(r: nat, g: nat, b: nat) -> RgbView {
    RgbView { r: whole_spec(r), g: whole_spec(g), b: whole_spec(b) }
}

/// The colours of a status: green, yellow, grey or red.
pub open spec fn palette_spec(status: TunnelStatusView) -> PaletteView {
    match status {
        TunnelStatusView::Connected => PaletteView {
            top: rgb_spec(118, 255, 192),
            bot: rgb_spec(0, 133, 88),
            core: rgb_spec(0, 220, 140),
            core_b: rgb_spec(236, 255, 247),
            glow: rgb_spec(0, 230, 150),
        },
        TunnelStatusView::Connecting => PaletteView {
            top: rgb_spec(255, 222, 138),
            bot: rgb_spec(190, 124, 18),
            core: rgb_spec(255, 205, 96),
            core_b: rgb_spec(255, 246, 220),
            glow: rgb_spec(255, 205, 90),
        },
        TunnelStatusView::Disconnected => PaletteView {
            top: rgb_spec(150, 153, 161),
            bot: rgb_spec(58, 61, 70),
            core: rgb_spec(118, 128, 150),
            core_b: rgb_spec(224, 227, 233),
            glow: rgb_spec(126, 136, 158),
        },
        TunnelStatusView::Error(_) => PaletteView {
            top: rgb_spec(255, 128, 126),
            bot: rgb_spec(172, 28, 30),
            core: rgb_spec(255, 92, 90),
            core_b: rgb_spec(255, 228, 224),
            glow: rgb_spec(255, 85, 85),
        },
    }
}

pub fn rgb(r: u16, g: u16, b: u16) -> (c: Rgb)
    ensures
        c@ == rgb_spec(r as nat, g as nat, b as nat),
{
    Rgb { r: Num::whole(r), g: Num::whole(g), b: Num::whole(b) }
}

/// The colours of a status.
pub fn palette_for(status: &TunnelStatus) -> (p: Palette)
    ensures
        p@ == palette_spec(status@),
{
    match status {
        TunnelStatus::Connected => Palette {
            top: rgb(118, 255, 192),
            bot: rgb(0, 133, 88),
            core: rgb(0, 220, 140),
            core_b: rgb(236, 255, 247),
            glow: rgb(0, 230, 150),
        },
        TunnelStatus::Connecting => Palette {
            top: rgb(255, 222, 138),
            bot: rgb(190, 124, 18),
            core: rgb(255, 205, 96),
            core_b: rgb(255, 246, 220),
            glow: rgb(255, 205, 90),
        },
        TunnelStatus::Disconnected => Palette {
            top: rgb(150, 153, 161),
            bot: rgb(58, 61, 70),
            core: rgb(118, 128, 150),
            core_b: rgb(224, 227, 233),
            glow: rgb(126, 136, 158),
        },
        TunnelStatus::Error(_) => Palette {
            top: rgb(255, 128, 126),
            bot: rgb(172, 28, 30),
            core: rgb(255, 92, 90),
            core_b: rgb(255, 228, 224),
            glow: rgb(255, 85, 85),
        },
    }
}

pub open spec fn mix(a: Value, b: Value, t: Value) -> Value {
    add_spec(a, mul_spec(sub_spec(b, a), t))
}

pub open spec fn lerp3_spec(a: RgbView, b: RgbView, t: Value) -> RgbView {
    RgbView { r: mix(a.r, b.r, t), g: mix(a.g, b.g, t), b: mix(a.b, b.b, t) }
}

/// The colour `t` of the way from `a` to `b`.
pub fn lerp3(a: Rgb, b: Rgb, t: Num) -> (c: Rgb)
    ensures
        c@ == lerp3_spec(a@, b@, t@),
{
    Rgb {
        r: a.r.plus(b.r.minus(a.r).times(t)),
        g: a.g.plus(b.g.minus(a.g).times(t)),
        b: a.b.plus(b.b.minus(a.b).times(t)),
    }
}

#[verifier::opaque]
pub open spec fn ellipse_u_spec(
    x: Value,
    y: Value,
    cx: Value,
    cy: Value,
    rx: Value,
    ry: Value,
) -> Value {
    let dx = div_spec(sub_spec(x, cx), rx);
    let dy = div_spec(sub_spec(y, cy), ry);
    sqrt_spec(add_spec(mul_spec(dx, dx), mul_spec(dy, dy)))
}

/// The distance from `(cx, cy)` in terms of the ellipse with half axes `rx` and
/// `ry` about it: 1 on its edge.
pub fn ellipse_u(x: Num, y: Num, cx: Num, cy: Num, rx: Num, ry: Num) -> (u: Num)
    ensures
        u@ == ellipse_u_spec(x@, y@, cx@, cy@, rx@, ry@),
{
    reveal(ellipse_u_spec);
    let dx = x.minus(cx).over(rx);
    let dy = y.minus(cy).over(ry);
    dx.times(dx).plus(dy.times(dy)).sqrt()
}

pub open spec fn ring_cov_spec(
    x: Value,
    y: Value,
    cx: Value,
    cy: Value,
    rx: Value,
    ry: Value,
    hw: Value,
) -> Value {
    let off = size_spec(sub_spec(ellipse_u_spec(x, y, cx, cy, rx, ry), whole_spec(1)));
    let pd = mul_spec(off, min_spec(rx, ry));
    clamp_spec(
        sub_spec(add_spec(hw, half_past_spec(0)), pd),
        whole_spec(0),
        whole_spec(1),
    )
}

/// How much of a pixel a ring of half width `hw` covers, with a soft edge of
/// one pixel.
pub fn ring_cov(x: Num, y: Num, cx: Num, cy: Num, rx: Num, ry: Num, hw: Num) -> (c: Num)
    ensures
        c@ == ring_cov_spec(x@, y@, cx@, cy@, rx@, ry@, hw@),
{
    let u = ellipse_u(x, y, cx, cy, rx, ry);
    let pd = u.minus(Num::whole(1)).size_of().times(rx.min(ry));
    hw.plus(Num::half_past(0)).minus(pd).clamp(Num::whole(0), Num::whole(1))
}

pub open spec fn grad_t_spec(y: Value, cy: Value, ry: Value) -> Value {
    clamp_spec(
        div_spec(sub_spec(y, sub_spec(cy, ry)), mul_spec(whole_spec(2), ry)),
        whole_spec(0),
        whole_spec(1),
    )
}

/// How far down a ring `y` lies: 0 at its top, 1 at its bottom.
pub fn grad_t(y: Num, cy: Num, ry: Num) -> (t: Num)
    ensures
        t@ == grad_t_spec(y@, cy@, ry@),
{
    let height = Num::whole(2).times(ry);
    y.minus(cy.minus(ry)).over(height).clamp(Num::whole(0), Num::whole(1))
}

pub open spec fn blend(
    old_part: Value,
    old_alpha: Value,
    part: Value,
    ca: Value,
    na: Value,
) -> Value {
    div_spec(
        add_spec(
            mul_spec(part, ca),
            mul_spec(mul_spec(old_part, old_alpha), sub_spec(whole_spec(1), ca)),
        ),
        na,
    )
}

pub open spec fn compose_spec(acc: LayerView, col: RgbView, ca: Value) -> LayerView {
    let na = add_spec(ca, mul_spec(acc.alpha, sub_spec(whole_spec(1), ca)));
    if le(ca, whole_spec(0)) || le(na, whole_spec(0)) {
        acc
    } else {
        LayerView {
            color: RgbView {
                r: blend(acc.color.r, acc.alpha, col.r, ca, na),
                g: blend(acc.color.g, acc.alpha, col.g, ca, na),
                b: blend(acc.color.b, acc.alpha, col.b, ca, na),
            },
            alpha: na,
        }
    }
}

fn blend_part(old_part: Num, old_alpha: Num, part: Num, ca: Num, na: Num) -> (r: Num)
    ensures
        r@ == blend(old_part@, old_alpha@, part@, ca@, na@),
{
    part.times(ca).plus(old_part.times(old_alpha).times(Num::whole(1).minus(ca))).over(na)
}

/// Whether a value is finite and from zero up.
pub open spec fn is_plain(v: Value) -> bool {
    v is Finite && !v->Finite_negative
}

/// Whether a value is that of a number from zero up.
pub open spec fn is_part(v: Value) -> bool {
    is_plain(v) && exact(v)
}

/// Whether a layer is finite, and stays so where its parts are weighted.
pub open spec fn is_drawn(l: LayerView) -> bool {
    &&& l.alpha is Finite
    &&& mul_spec(l.color.r, l.alpha) is Finite
    &&& mul_spec(l.color.g, l.alpha) is Finite
    &&& mul_spec(l.color.b, l.alpha) is Finite
}

/// An opaque layer covers what is below it.
pub proof fn opaque_layer_covers(acc: LayerView, col: RgbView)
    requires
        is_drawn(acc),
        is_part(col.r),
        is_part(col.g),
        is_part(col.b),
    ensures
        compose_spec(acc, col, whole_spec(1)) == (LayerView { color: col, alpha: whole_spec(1) }),
{
    lemma_pow2_pos(149);
    lemma_rounded_zero(true, one());
    lemma_rounded_zero(false, one());
    lemma_whole_is_exact(1);
    assert(1 * one() == one());
    assert(0 * one() == 0);
    lemma_exact_stays(false, one());
    lemma_exact_stays(false, col.r->units);
    lemma_exact_stays(false, col.g->units);
    lemma_exact_stays(false, col.b->units);
    let nothing = sub_spec(whole_spec(1), whole_spec(1));
    assert(nothing == (Value::Finite { negative: false, units: 0 }));
    assert forall|v: Value| v is Finite implies {
        let w = #[trigger] mul_spec(v, nothing);
        w is Finite && w->units == 0
    } by {
        assert(v->units * 0 == 0) by (nonlinear_arith);
    }
    lemma_covers(acc.color.r, acc.alpha, col.r);
    lemma_covers(acc.color.g, acc.alpha, col.g);
    lemma_covers(acc.color.b, acc.alpha, col.b);
}

proof fn lemma_covers(old_part: Value, old_alpha: Value, part: Value)
    requires
        mul_spec(old_part, old_alpha) is Finite,
        is_part(part),
    ensures
        blend(old_part, old_alpha, part, whole_spec(1), whole_spec(1)) == part,
{
    lemma_pow2_pos(149);
    lemma_rounded_zero(true, one());
    lemma_rounded_zero(false, one());
    assert(1 * one() == one());
    assert(0 * one() == 0);
    lemma_exact_stays(false, part->units);
    let nothing = sub_spec(whole_spec(1), whole_spec(1));
    let under = mul_spec(old_part, old_alpha);
    assert(under->units * 0 == 0) by (nonlinear_arith);
    let rest = mul_spec(under, nothing);
    assert(rest is Finite && rest->units == 0);
    assert(mul_spec(part, whole_spec(1)) == part);
    assert(add_spec(part, rest) == part);
}

/// Lays a colour of opacity `ca` over what is there. An opaque one covers it.
pub fn compose(acc: &mut Layer, col: Rgb, ca: Num)
    ensures
        final(acc)@ == compose_spec(old(acc)@, col@, ca@),
        ca@ == whole_spec(1) && is_drawn(old(acc)@) && is_plain(col@.r) && is_plain(col@.g)
            && is_plain(col@.b) ==> final(acc)@ == (LayerView {
            color: col@,
            alpha: whole_spec(1),
        }),
{
    proof {
        use_type_invariant(&col.r);
        use_type_invariant(&col.g);
        use_type_invariant(&col.b);
        if is_drawn(acc@) && is_plain(col@.r) && is_plain(col@.g) && is_plain(col@.b) {
            opaque_layer_covers(acc@, col@);
        }
    }
    let zero = Num::whole(0);
    if ca.at_most(zero) {
        return;
    }
    let na = ca.plus(acc.alpha.times(Num::whole(1).minus(ca)));
    if na.at_most(zero) {
        return;
    }
    let old_layer = *acc;
    *acc = Layer {
        color: Rgb {
            r: blend_part(old_layer.color.r, old_layer.alpha, col.r, ca, na),
            g: blend_part(old_layer.color.g, old_layer.alpha, col.g, ca, na),
            b: blend_part(old_layer.color.b, old_layer.alpha, col.b, ca, na),
        },
        alpha: na,
    };
}

/// Where the icon's middle lies.
pub open spec fn middle() -> Value {
    whole_spec(12)
}

/// The middle of a pixel.
pub open spec fn centre(p: int) -> Value {
    half_past_spec(p as nat)
}

/// A ring laid over what is there: half axes in tenths, half width in
/// hundredths.
pub open spec fn ring_over(
    acc: LayerView,
    p: PaletteView,
    x: Value,
    y: Value,
    rx: nat,
    ry: nat,
    hw: nat,
) -> LayerView {
    compose_spec(
        acc,
        lerp3_spec(p.top, p.bot, grad_t_spec(y, middle(), ratio_spec(ry, 10))),
        ring_cov_spec(
            x,
            y,
            middle(),
            middle(),
            ratio_spec(rx, 10),
            ratio_spec(ry, 10),
            ratio_spec(hw, 100),
        ),
    )
}

pub open spec fn glow_alpha(x: Value, y: Value) -> Value {
    let gd = ellipse_u_spec(x, y, middle(), middle(), ratio_spec(81, 10), ratio_spec(57, 10));
    clamp_spec(
        mul_spec(
            ratio_spec(45, 100),
            sub_spec(whole_spec(1), div_spec(gd, ratio_spec(145, 100))),
        ),
        whole_spec(0),
        whole_spec(1),
    )
}

/// The distance from the middle in terms of the core.
pub open spec fn core_u(x: Value, y: Value) -> Value {
    ellipse_u_spec(x, y, middle(), middle(), ratio_spec(43, 10), ratio_spec(23, 10))
}

/// How much the core covers.
pub open spec fn core_alpha(gd: Value) -> Value {
    clamp_spec(
        div_spec(sub_spec(ratio_spec(12, 10), gd), ratio_spec(25, 100)),
        whole_spec(0),
        whole_spec(1),
    )
}

/// How far the core has faded from white to the colour of its rim.
pub open spec fn core_tint(gd: Value) -> Value {
    clamp_spec(
        div_spec(sub_spec(gd, ratio_spec(45, 100)), ratio_spec(55, 100)),
        whole_spec(0),
        whole_spec(1),
    )
}

pub open spec fn core_over(acc: LayerView, p: PaletteView, gd: Value) -> LayerView {
    if le(gd, ratio_spec(12, 10)) {
        compose_spec(acc, lerp3_spec(p.core_b, p.core, core_tint(gd)), core_alpha(gd))
    } else {
        acc
    }
}

/// Nothing drawn yet.
pub open spec fn blank() -> LayerView {
    LayerView {
        color: RgbView { r: whole_spec(0), g: whole_spec(0), b: whole_spec(0) },
        alpha: whole_spec(0),
    }
}

/// One pixel: the glow, three rings from the outermost in, and the core.
#[verifier::opaque]
pub open spec fn pixel_spec(p: PaletteView, px: int, py: int) -> LayerView {
    let x = centre(px);
    let y = centre(py);
    let behind = compose_spec(blank(), p.glow, glow_alpha(x, y));
    let outer = ring_over(behind, p, x, y, 116, 97, 145);
    let second = ring_over(outer, p, x, y, 87, 73, 115);
    let inner = ring_over(second, p, x, y, 57, 48, 95);
    core_over(inner, p, core_u(x, y))
}

/// A colour part as a byte.
pub open spec fn part_byte(part: Value) -> u8 {
    byte_spec(clamp_spec(part, whole_spec(0), whole_spec(255)))
}

/// Byte `c` of a pixel: red, green, blue, opacity.
pub open spec fn channel(l: LayerView, c: int) -> u8 {
    if c == 0 {
        part_byte(l.color.r)
    } else if c == 1 {
        part_byte(l.color.g)
    } else if c == 2 {
        part_byte(l.color.b)
    } else {
        part_byte(mul_spec(l.alpha, whole_spec(255)))
    }
}

/// Byte `i` of the icon: four to a pixel, row by row.
pub open spec fn icon_byte(status: TunnelStatusView, i: int) -> u8 {
    channel(pixel_spec(palette_spec(status), (i / 4) % 24, i / 96), i % 4)
}

/// The icon of a status: 24 by 24 pixels of four bytes.
pub open spec fn icon_spec(status: TunnelStatusView) -> Seq<u8> {
    Seq::new(2304, |i: int| icon_byte(status, i))
}

fn tenths(n: u16) -> (r: Num)
    ensures
        r@ == ratio_spec(n as nat, 10),
{
    Num::ratio(n, 10)
}

fn hundredths(n: u16) -> (r: Num)
    ensures
        r@ == ratio_spec(n as nat, 100),
{
    Num::ratio(n, 100)
}

fn draw_ring(acc: &mut Layer, p: &Palette, x: Num, y: Num, rx: u16, ry: u16, hw: u16)
    ensures
        final(acc)@ == ring_over(old(acc)@, p@, x@, y@, rx as nat, ry as nat, hw as nat),
{
    let mid = Num::whole(12);
    let ry = tenths(ry);
    let ca = ring_cov(x, y, mid, mid, tenths(rx), ry, hundredths(hw));
    compose(acc, lerp3(p.top, p.bot, grad_t(y, mid, ry)), ca);
}

fn draw_core(acc: &mut Layer, p: &Palette, gd: Num)
    ensures
        final(acc)@ == core_over(old(acc)@, p@, gd@),
{
    if gd.at_most(tenths(12)) {
        let zero = Num::whole(0);
        let one = Num::whole(1);
        let ca = tenths(12).minus(gd).over(hundredths(25)).clamp(zero, one);
        let tint = gd.minus(hundredths(45)).over(hundredths(55)).clamp(zero, one);
        compose(acc, lerp3(p.core_b, p.core, tint), ca);
    }
}

fn pixel(p: &Palette, px: u16, py: u16) -> (l: Layer)
    ensures
        l@ == pixel_spec(p@, px as int, py as int),
{
    reveal(pixel_spec);
    let zero = Num::whole(0);
    let one = Num::whole(1);
    let mid = Num::whole(12);
    let x = Num::half_past(px);
    let y = Num::half_past(py);
    let mut acc = Layer { color: Rgb { r: zero, g: zero, b: zero }, alpha: zero };
    assert(acc@ == blank());
    let gd = ellipse_u(x, y, mid, mid, tenths(81), tenths(57));
    let ca = hundredths(45).times(one.minus(gd.over(hundredths(145)))).clamp(zero, one);
    compose(&mut acc, p.glow, ca);
    draw_ring(&mut acc, p, x, y, 116, 97, 145);
    draw_ring(&mut acc, p, x, y, 87, 73, 115);
    draw_ring(&mut acc, p, x, y, 57, 48, 95);
    draw_core(&mut acc, p, ellipse_u(x, y, mid, mid, tenths(43), tenths(23)));
    acc
}

fn byte_of(part: Num) -> (b: u8)
    ensures
        b == part_byte(part@),
{
    part.clamp(Num::whole(0), Num::whole(255)).byte()
}

/// Adds the four bytes of a pixel.
fn push_pixel(pixels: &mut Vec<u8>, l: Layer)
    ensures
        final(pixels)@ == old(pixels)@ + Seq::new(4, |c: int| channel(l@, c)),
{
    pixels.push(byte_of(l.color.r));
    pixels.push(byte_of(l.color.g));
    pixels.push(byte_of(l.color.b));
    pixels.push(byte_of(l.alpha.times(Num::whole(255))));
    assert(pixels@ =~= old(pixels)@ + Seq::new(4, |c: int| channel(l@, c)));
}

/// A pixel continues the icon.
proof fn lemma_icon_grows(status: TunnelStatusView, px: int, py: int, l: LayerView)
    requires
        0 <= px < 24,
        0 <= py < 24,
        l == pixel_spec(palette_spec(status), px, py),
    ensures
        icon_spec(status).take(96 * py + 4 * px) + Seq::new(4, |c: int| channel(l, c))
            == icon_spec(status).take(96 * py + 4 * (px + 1)),
{
    let n = 96 * py + 4 * px;
    let longer = icon_spec(status).take(n + 4);
    assert forall|i: int| n <= i < n + 4 implies longer[i] == channel(l, i - n) by {
        assert(i / 4 % 24 == px);
        assert(i / 96 == py);
        assert(i % 4 == i - n);
    }
    assert(icon_spec(status).take(n) + Seq::new(4, |c: int| channel(l, c)) =~= longer);
}

/// The tray icon of a status: 24 by 24 pixels, each of four bytes (red, green,
/// blue, opacity).
pub fn make_tray_icon_pixels(status: &TunnelStatus) -> (pixels: Vec<u8>)
    ensures
        pixels@ == icon_spec(status@),
{
    let pal = palette_for(status);
    let mut pixels: Vec<u8> = Vec::with_capacity(2304);
    let mut py: u16 = 0;
    assert(pixels@ =~= icon_spec(status@).take(0));
    while py < SIDE
        invariant
            py <= SIDE,
            pal@ == palette_spec(status@),
            pixels@ == icon_spec(status@).take(96 * py as int),
        decreases SIDE - py,
    {
        let mut px: u16 = 0;
        while px < SIDE
            invariant
                px <= SIDE,
                py < SIDE,
                pal@ == palette_spec(status@),
                pixels@ == icon_spec(status@).take(96 * py as int + 4 * px as int),
            decreases SIDE - px,
        {
            let l = pixel(&pal, px, py);
            proof {
                lemma_icon_grows(status@, px as int, py as int, l@);
            }
            push_pixel(&mut pixels, l);
            px = px + 1;
        }
        py = py + 1;
    }
    assert(icon_spec(status@).take(2304) =~= icon_spec(status@));
    pixels
}

/// A status changes the icon's colours only: how opaque each pixel is does not
/// depend on it.
pub proof fn icon_opacity_is_the_same_for_every_status(
    a: TunnelStatusView,
    b: TunnelStatusView,
    i: int,
)
    requires
        0 <= i < 2304,
        i % 4 == 3,
    ensures
        icon_spec(a)[i] == icon_spec(b)[i],
{
    let px = (i / 4) % 24;
    let py = i / 96;
    assert(pixel_spec(palette_spec(a), px, py).alpha == pixel_spec(palette_spec(b), px, py).alpha)
        by {
        reveal(pixel_spec);
    }
}

proof fn lemma_quotient_negated(a: Value, b: Value)
    ensures
        div_spec(negated(a), b) == negated(div_spec(a, b)),
{
}

proof fn lemma_ellipse_u_mirrored(px: int, y: Value, rx: Value, ry: Value)
    requires
        0 <= px < 24,
    ensures
        ellipse_u_spec(centre(23 - px), y, middle(), middle(), rx, ry) == ellipse_u_spec(
            centre(px),
            y,
            middle(),
            middle(),
            rx,
            ry,
        ),
{
    reveal(ellipse_u_spec);
    lemma_pow2_pos(148);
    lemma_pow2_unfold(149);
    let h = pow2(148);
    let off = (2 * px - 23) * h;
    assert((2 * px + 1) * h - 12 * (2 * h) == off) by (nonlinear_arith)
        requires
            off == (2 * px - 23) * h,
    ;
    assert((2 * (23 - px) + 1) * h - 12 * (2 * h) == -off) by (nonlinear_arith)
        requires
            off == (2 * px - 23) * h,
    ;
    assert(off != 0) by (nonlinear_arith)
        requires
            off == (2 * px - 23) * h,
            h > 0,
    ;
    let a = sub_spec(centre(px), middle());
    assert(sub_spec(centre(23 - px), middle()) == negated(a));
    lemma_quotient_negated(a, rx);
    let dx = div_spec(a, rx);
    assert(mul_spec(negated(dx), negated(dx)) == mul_spec(dx, dx));
}

proof fn lemma_ring_mirrored(
    acc: LayerView,
    p: PaletteView,
    px: int,
    y: Value,
    rx: nat,
    ry: nat,
    hw: nat,
)
    requires
        0 <= px < 24,
    ensures
        ring_over(acc, p, centre(23 - px), y, rx, ry, hw) == ring_over(
            acc,
            p,
            centre(px),
            y,
            rx,
            ry,
            hw,
        ),
{
    lemma_ellipse_u_mirrored(px, y, ratio_spec(rx, 10), ratio_spec(ry, 10));
}

proof fn lemma_pixel_mirrored(p: PaletteView, px: int, py: int)
    requires
        0 <= px < 24,
    ensures
        pixel_spec(p, 23 - px, py) == pixel_spec(p, px, py),
{
    reveal(pixel_spec);
    let x = centre(px);
    let y = centre(py);
    lemma_ellipse_u_mirrored(px, y, ratio_spec(81, 10), ratio_spec(57, 10));
    lemma_ellipse_u_mirrored(px, y, ratio_spec(43, 10), ratio_spec(23, 10));
    let behind = compose_spec(blank(), p.glow, glow_alpha(x, y));
    lemma_ring_mirrored(behind, p, px, y, 116, 97, 145);
    let outer = ring_over(behind, p, x, y, 116, 97, 145);
    lemma_ring_mirrored(outer, p, px, y, 87, 73, 115);
    let second = ring_over(outer, p, x, y, 87, 73, 115);
    lemma_ring_mirrored(second, p, px, y, 57, 48, 95);
}

/// The icon is its own mirror image: the pixel as far from the right edge as
/// another is from the left looks the same.
#[verifier::rlimit(40)]
pub proof fn icon_is_symmetric(status: TunnelStatusView, px: int, py: int, c: int)
    requires
        0 <= px < 24,
        0 <= py < 24,
        0 <= c < 4,
    ensures
        icon_spec(status)[96 * py + 4 * px + c] == icon_spec(status)[96 * py + 4 * (23 - px) + c],
{
    lemma_pixel_mirrored(palette_spec(status), px, py);
    lemma_byte_at(px, py, c);
    lemma_byte_at(23 - px, py, c);
}

/// Where a byte of a pixel stands.
proof fn lemma_byte_at(px: int, py: int, c: int)
    requires
        0 <= px < 24,
        0 <= py < 24,
        0 <= c < 4,
    ensures
        ({
            let i = 96 * py + 4 * px + c;
            0 <= i < 2304 && (i / 4) % 24 == px && i / 96 == py && i % 4 == c
        }),
{
}

} // verus!
