use tunnel::config::TunnelStatus;
use tunnel::icon::{compose, make_tray_icon_pixels, rgb, Layer, Rgb};
use tunnel::number::Num;

fn pixel(pixels: &[u8], x: usize, y: usize) -> (u8, u8, u8, u8) {
    let i = (y * 24 + x) * 4;
    (pixels[i], pixels[i + 1], pixels[i + 2], pixels[i + 3])
}

#[test]
fn tray_icon_motif_and_palette() {
    let px = make_tray_icon_pixels(&TunnelStatus::Connected);
    assert_eq!(pixel(&px, 0, 0).3, 0, "corner must be transparent");
    assert_eq!(pixel(&px, 23, 23).3, 0, "corner must be transparent");

    let (r, g, b, a) = pixel(&px, 12, 12);
    assert_eq!(a, 255, "core must be opaque");
    assert!(r > 200 && g > 230 && b > 230, "core should be near-white, got ({r},{g},{b})");

    let (r, g, _, a) = pixel(&px, 12, 2);
    assert!(a > 200, "ring band must be opaque");
    assert!(g as i32 - r as i32 > 30, "connected ring should be greenish, got ({r},{g})");

    let pxg = make_tray_icon_pixels(&TunnelStatus::Disconnected);
    let (r2, g2, _, a2) = pixel(&pxg, 12, 2);
    assert!(a2 > 200);
    assert!(
        (g2 as i32 - r2 as i32).abs() < 15,
        "disconnected ring should be neutral gray, got ({r2},{g2})"
    );

    let pxe = make_tray_icon_pixels(&TunnelStatus::Error("test".into()));
    let (r3, g3, _, _) = pixel(&pxe, 12, 2);
    assert!(r3 as i32 - g3 as i32 > 30, "error ring should be reddish, got ({r3},{g3})");
}

fn statuses() -> Vec<TunnelStatus> {
    vec![
        TunnelStatus::Disconnected,
        TunnelStatus::Connecting,
        TunnelStatus::Connected,
        TunnelStatus::Error("down".to_string()),
    ]
}

type Tint = [f32; 3];

fn tints(status: &TunnelStatus) -> [Tint; 5] {
    match status {
        TunnelStatus::Connected => [
            [118.0, 255.0, 192.0],
            [0.0, 133.0, 88.0],
            [0.0, 220.0, 140.0],
            [236.0, 255.0, 247.0],
            [0.0, 230.0, 150.0],
        ],
        TunnelStatus::Connecting => [
            [255.0, 222.0, 138.0],
            [190.0, 124.0, 18.0],
            [255.0, 205.0, 96.0],
            [255.0, 246.0, 220.0],
            [255.0, 205.0, 90.0],
        ],
        TunnelStatus::Disconnected => [
            [150.0, 153.0, 161.0],
            [58.0, 61.0, 70.0],
            [118.0, 128.0, 150.0],
            [224.0, 227.0, 233.0],
            [126.0, 136.0, 158.0],
        ],
        TunnelStatus::Error(_) => [
            [255.0, 128.0, 126.0],
            [172.0, 28.0, 30.0],
            [255.0, 92.0, 90.0],
            [255.0, 228.0, 224.0],
            [255.0, 85.0, 85.0],
        ],
    }
}

fn lerp(a: Tint, b: Tint, t: f32) -> Tint {
    [a[0] + (b[0] - a[0]) * t, a[1] + (b[1] - a[1]) * t, a[2] + (b[2] - a[2]) * t]
}

fn distance(x: f32, y: f32, rx: f32, ry: f32) -> f32 {
    let dx = (x - 12.0) / rx;
    let dy = (y - 12.0) / ry;
    (dx * dx + dy * dy).sqrt()
}

fn band(x: f32, y: f32, rx: f32, ry: f32, hw: f32) -> f32 {
    let pd = (distance(x, y, rx, ry) - 1.0).abs() * rx.min(ry);
    (hw + 0.5 - pd).clamp(0.0, 1.0)
}

fn slope(y: f32, ry: f32) -> f32 {
    ((y - (12.0 - ry)) / (2.0 * ry)).clamp(0.0, 1.0)
}

fn lay(acc: &mut [f32; 4], col: Tint, ca: f32) {
    if ca <= 0.0 {
        return;
    }
    let na = ca + acc[3] * (1.0 - ca);
    if na <= 0.0 {
        return;
    }
    for i in 0..3 {
        acc[i] = (col[i] * ca + acc[i] * acc[3] * (1.0 - ca)) / na;
    }
    acc[3] = na;
}

/// The same drawing in hardware floating point.
fn drawn_in_f32(status: &TunnelStatus) -> Vec<u8> {
    let [top, bot, core, core_b, glow] = tints(status);
    let mut out = Vec::new();
    for py in 0..24 {
        for px in 0..24 {
            let (x, y) = (px as f32 + 0.5, py as f32 + 0.5);
            let mut acc = [0.0f32; 4];
            let gd = distance(x, y, 8.1, 5.7);
            lay(&mut acc, glow, (0.45 * (1.0 - gd / 1.45)).clamp(0.0, 1.0));
            for (rx, ry, hw) in [(11.6, 9.7, 1.45), (8.7, 7.3, 1.15), (5.7, 4.8, 0.95)] {
                lay(&mut acc, lerp(top, bot, slope(y, ry)), band(x, y, rx, ry, hw));
            }
            let gd = distance(x, y, 4.3, 2.3);
            if gd <= 1.2 {
                let ca = ((1.2 - gd) / 0.25).clamp(0.0, 1.0);
                let tint = ((gd - 0.45) / 0.55).clamp(0.0, 1.0);
                lay(&mut acc, lerp(core_b, core, tint), ca);
            }
            out.push(acc[0].clamp(0.0, 255.0) as u8);
            out.push(acc[1].clamp(0.0, 255.0) as u8);
            out.push(acc[2].clamp(0.0, 255.0) as u8);
            out.push((acc[3] * 255.0).clamp(0.0, 255.0) as u8);
        }
    }
    out
}

#[test]
fn icon_is_what_single_precision_draws() {
    for status in statuses() {
        assert_eq!(make_tray_icon_pixels(&status), drawn_in_f32(&status));
    }
}

#[test]
fn icon_has_four_bytes_for_each_pixel() {
    for status in statuses() {
        assert_eq!(make_tray_icon_pixels(&status).len(), 24 * 24 * 4);
    }
}

#[test]
fn opacity_does_not_tell_statuses_apart() {
    let plain = make_tray_icon_pixels(&TunnelStatus::Disconnected);
    for status in statuses() {
        let px = make_tray_icon_pixels(&status);
        for i in 0..24 * 24 {
            assert_eq!(px[4 * i + 3], plain[4 * i + 3]);
        }
    }
}

#[test]
fn left_half_mirrors_right_half() {
    for status in statuses() {
        let px = make_tray_icon_pixels(&status);
        for y in 0..24 {
            for x in 0..24 {
                assert_eq!(pixel(&px, x, y), pixel(&px, 23 - x, y));
            }
        }
    }
}

#[test]
fn reason_of_an_error_does_not_show_in_the_icon() {
    let a = make_tray_icon_pixels(&TunnelStatus::Error(String::new()));
    let b = make_tray_icon_pixels(&TunnelStatus::Error("port 1 bind failed".to_string()));
    assert_eq!(a, b);
}

#[test]
fn every_status_has_its_own_icon() {
    let all: Vec<Vec<u8>> = statuses().iter().map(make_tray_icon_pixels).collect();
    for i in 0..all.len() {
        for j in 0..i {
            assert_ne!(all[i], all[j]);
        }
    }
}

#[test]
fn centre_shows_the_innermost_colour() {
    let centre = |status| pixel(&make_tray_icon_pixels(&status), 12, 12);
    assert_eq!(centre(TunnelStatus::Connected), (236, 255, 247, 255));
    assert_eq!(centre(TunnelStatus::Connecting), (255, 246, 220, 255));
    assert_eq!(centre(TunnelStatus::Disconnected), (224, 227, 233, 255));
    assert_eq!(centre(TunnelStatus::Error(String::new())), (255, 228, 224, 255));
}

#[test]
fn opaque_layer_hides_what_is_below() {
    let same = |a: Num, b: Num| a.at_most(b) && b.at_most(a);
    let third = Num::ratio(1, 3);
    let mut acc = Layer { color: rgb(9, 99, 200), alpha: third };
    let col = Rgb { r: third, g: Num::ratio(2, 7), b: Num::whole(255) };
    compose(&mut acc, col, Num::whole(1));
    assert!(same(acc.color.r, col.r) && same(acc.color.g, col.g) && same(acc.color.b, col.b));
    assert!(same(acc.alpha, Num::whole(1)));
}
