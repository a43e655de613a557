use autokey_rust::icon::{
    badge_glyph, config_badge_text, glyph_for, render_app_icon_rgba_at, render_icon_ico,
    render_icon_ico_unbadged, render_icon_rgba, render_icon_rgba_at, render_icon_rgba_at_unbadged,
    render_icon_rgba_unbadged, render_taskbar_overlay_rgba_at, Color, Layer, Pixel, ICON_SIZE,
};

fn rounded_coverage(px: f32, py: f32, rect: (f32, f32, f32, f32), r: f32) -> f32 {
    let (x0, y0, x1, y1) = rect;
    let dx = ((x0 + r) - px).max(px - (x1 - r)).max(0.0);
    let dy = ((y0 + r) - py).max(py - (y1 - r)).max(0.0);
    let outside = ((dx * dx + dy * dy).sqrt() - r).max(0.0);
    (1.0 - outside).clamp(0.0, 1.0)
}

fn blend(old: Pixel, color: Pixel, coverage: f32) -> Pixel {
    if coverage <= 0.0 {
        return old;
    }
    let a = color.a as f32 * coverage / 255.0;
    let inv = 1.0 - a;
    let below = old.a as f32 / 255.0;
    let channel = |c: u8, o: u8| (c as f32 * a + o as f32 * below * inv).min(255.0) as u8;
    Pixel {
        r: channel(color.r, old.r),
        g: channel(color.g, old.g),
        b: channel(color.b, old.b),
        a: ((a + below * inv) * 255.0).min(255.0) as u8,
    }
}

fn mix(a: Pixel, b: Pixel, t: f32) -> Pixel {
    let channel = |a: u8, b: u8| {
        (a as f32 + (b as f32 - a as f32) * t).round().clamp(0.0, 255.0) as u8
    };
    Pixel {
        r: channel(a.r, b.r),
        g: channel(a.g, b.g),
        b: channel(a.b, b.b),
        a: channel(a.a, b.a),
    }
}

fn paint(layer: Layer, size: usize, x: usize, y: usize, old: Pixel) -> Pixel {
    let scale = size as f32 / 64.0;
    let unit = |tenths: u32| tenths as f32 / 10.0 * scale;
    let px = x as f32 + 0.5;
    let py = y as f32 + 0.5;
    match layer {
        Layer::Gradient { left, top, right, bottom, radius, upper, lower } => {
            let rect = (unit(left), unit(top), unit(right), unit(bottom));
            let t = ((py - rect.1) / (rect.3 - rect.1)).clamp(0.0, 1.0);
            let color = mix(upper.pixel(), lower.pixel(), t);
            blend(old, color, rounded_coverage(px, py, rect, unit(radius)))
        }
        Layer::RoundedRect { left, top, right, bottom, radius, color } => {
            let rect = (unit(left), unit(top), unit(right), unit(bottom));
            blend(old, color.pixel(), rounded_coverage(px, py, rect, unit(radius)))
        }
        Layer::Line { x0, y0, x1, y1, width, color } => {
            let (x0, y0, x1, y1) = (unit(x0), unit(y0), unit(x1), unit(y1));
            let (vx, vy) = (x1 - x0, y1 - y0);
            let len2 = vx * vx + vy * vy;
            let t = if len2 <= f32::EPSILON {
                0.0
            } else {
                (((px - x0) * vx + (py - y0) * vy) / len2).clamp(0.0, 1.0)
            };
            let (dx, dy) = (px - (x0 + vx * t), py - (y0 + vy * t));
            let coverage = unit(width) / 2.0 - (dx * dx + dy * dy).sqrt() + 0.75;
            blend(old, color.pixel(), coverage.clamp(0.0, 1.0))
        }
        Layer::Circle { cx, cy, radius, color } => {
            let (dx, dy) = (px - unit(cx), py - unit(cy));
            let radius = unit(radius);
            let dist2 = dx * dx + dy * dy;
            if dist2 <= radius * radius {
                blend(old, color.pixel(), (radius - dist2.sqrt() + 0.5).clamp(0.0, 1.0))
            } else {
                old
            }
        }
    }
}

#[test]
fn default_config_badge_is_zero() {
    assert_eq!(config_badge_text("默认"), "0");
    assert_eq!(config_badge_text(""), "0");
    assert_eq!(config_badge_text("  默认  "), "0");
}

#[test]
fn named_config_badge_is_alphanumeric() {
    assert_eq!(config_badge_text("abc"), "AB");
    assert_eq!(config_badge_text("config1"), "1");
    assert_eq!(config_badge_text("config12"), "12");
    assert_eq!(config_badge_text("1"), "1");
}

#[test]
fn badge_takes_what_it_finds() {
    assert_eq!(config_badge_text("a9b8c7"), "98");
    assert_eq!(config_badge_text("-x-y-"), "XY");
    assert_eq!(config_badge_text("配置"), "配");
    assert_eq!(config_badge_text("配z"), "Z");
}

#[test]
fn renders_without_panic_for_various_states() {
    for running in [false, true] {
        for name in ["默认", "abc", "config1", "1", "Z"] {
            let rgba = render_icon_rgba(running, name, &paint);
            assert_eq!(rgba.len(), ICON_SIZE * ICON_SIZE * 4);
            assert!(rgba.chunks_exact(4).any(|px| px[3] > 0));
        }
    }
}

#[test]
fn renders_native_icon_sizes_without_panic() {
    for size in [16, 32, 48, 64, 128, 256] {
        let rgba = render_icon_rgba_at(size, false, "config12", &paint);
        assert_eq!(rgba.len(), size * size * 4);
        assert!(rgba.chunks_exact(4).any(|px| px[3] > 0));
    }
}

#[test]
fn renders_taskbar_overlay_with_badge_pixels() {
    let rgba = render_taskbar_overlay_rgba_at(64, true, "config12", &paint);
    assert_eq!(rgba.len(), 64 * 64 * 4);
    assert!(rgba.chunks_exact(4).any(|px| px[3] > 0));
    let text = Color::BadgeText.pixel();
    assert!(rgba.chunks_exact(4).any(|px| {
        px[0] == text.r && px[1] == text.g && px[2] == text.b && px[3] > 0
    }));
}

#[test]
fn characters_are_placed_as_rounded_numbers_say() {
    for size in 1..=300usize {
        let scale = size as f32 / 64.0;
        let nothing = |_: Layer, _: usize, _: usize, _: usize, old: Pixel| old;
        let rgba = render_icon_rgba_at(size, false, "8", &nothing);
        let glyph = badge_glyph("8");
        let out_w = (17.0 * scale).round().max(5.0) as i32;
        let out_h = (22.5 * scale).round().max(7.0) as i32;
        let ox = (47.7 * scale).round() as i32 - out_w / 2;
        let oy = (16.1 * scale).round() as i32 - out_h / 2;
        let mut expected = vec![0u8; size * size * 4];
        for y in 0..out_h {
            for x in 0..out_w {
                let gx = x as usize * 5 / out_w as usize;
                let gy = y as usize * 7 / out_h as usize;
                let (px, py) = (ox + x, oy + y);
                let inside = 0 <= px && px < size as i32 && 0 <= py && py < size as i32;
                if glyph.pixel(gx, gy) && inside {
                    let at = (py as usize * size + px as usize) * 4;
                    expected[at..at + 4].copy_from_slice(&[9, 55, 93, 255]);
                }
            }
        }
        assert_eq!(rgba, expected);
    }
}

#[test]
fn the_tile_is_round_only_at_its_corners() {
    let rgba = render_app_icon_rgba_at(64, &paint);
    let alpha = |x: usize, y: usize| rgba[(y * 64 + x) * 4 + 3];
    assert_eq!(alpha(32, 32), 255);
    assert_eq!(alpha(3, 32), 255);
    assert_eq!(alpha(32, 60), 255);
    assert_eq!(alpha(3, 3), 0);
    assert_eq!(alpha(60, 60), 0);
    assert_eq!(alpha(0, 32), 0);
}

#[test]
fn names_with_the_same_badge_look_the_same() {
    for (name, other) in [("config1", "1"), ("默认", ""), ("abc", " aB ")] {
        assert_eq!(config_badge_text(name), config_badge_text(other));
        for size in [16, 33] {
            let rgba = render_icon_rgba_at(size, true, name, &paint);
            assert_eq!(rgba, render_icon_rgba_at(size, true, other, &paint));
            assert_eq!(rgba.len(), size * size * 4);
            assert_ne!(rgba, render_icon_rgba_at(size, true, "8", &paint));
            assert_eq!(
                render_taskbar_overlay_rgba_at(size, false, name, &paint),
                render_taskbar_overlay_rgba_at(size, false, other, &paint)
            );
        }
        assert_eq!(
            render_icon_ico(false, name, &paint),
            render_icon_ico(false, other, &paint)
        );
    }
}

#[test]
fn layers_are_painted_in_order() {
    let count = |layer: Layer, _: usize, _: usize, _: usize, old: Pixel| Pixel {
        r: old.r + 1,
        g: if matches!(layer, Layer::Circle { color: Color::Running, .. }) { old.r } else { old.g },
        b: 0,
        a: 1,
    };
    let unbadged = render_icon_rgba_at_unbadged(2, true, &count);
    assert_eq!(unbadged, [10, 9, 0, 1].repeat(4));
    let app = render_app_icon_rgba_at(1, &count);
    assert_eq!(app, vec![10, 0, 0, 1]);
    let whole = render_icon_rgba_unbadged(true, &count);
    assert_eq!(&whole[..4], &[10, 9, 0, 1]);
    let overlay = render_taskbar_overlay_rgba_at(64, true, "x", &count);
    assert_eq!(&overlay[..4], &[2, 0, 0, 1]);
}

#[test]
fn glyphs_have_their_pixels() {
    let one = badge_glyph("1");
    assert_eq!((one.width, one.height, one.source_chars), (5, 7, 1));
    assert!(one.pixel(2, 0));
    assert!(!one.pixel(0, 0));
    assert!(one.pixel(1, 6) && one.pixel(2, 6) && one.pixel(3, 6));
    assert!(!one.pixel(5, 0) && !one.pixel(0, 7));
    let two = badge_glyph("L7");
    assert_eq!((two.width, two.height, two.source_chars), (11, 7, 2));
    for y in 0..7 {
        assert!(two.pixel(0, y));
        assert!(!two.pixel(5, y));
    }
    for x in 6..11 {
        assert!(two.pixel(x, 0));
    }
    assert_eq!(badge_glyph("配"), badge_glyph("0"));
    assert_eq!(badge_glyph("").width, 0);
    assert_eq!(glyph_for('a'), None);
    assert!(glyph_for('Z').is_some());
}

#[test]
fn icon_files_list_their_images() {
    for file in [render_icon_ico(true, "5", &paint), render_icon_ico_unbadged(false, &paint)] {
        assert_eq!(&file[..6], &[0, 0, 1, 0, 6, 0]);
        let read = |at: usize| {
            u32::from_le_bytes([file[at], file[at + 1], file[at + 2], file[at + 3]]) as usize
        };
        let mut end = 6 + 6 * 16;
        for (index, size) in [16usize, 32, 48, 64, 128, 256].iter().enumerate() {
            let entry = 6 + index * 16;
            assert_eq!(file[entry] as usize, size % 256);
            assert_eq!(file[entry + 1] as usize, size % 256);
            assert_eq!(&file[entry + 2..entry + 8], &[0, 0, 1, 0, 32, 0]);
            let length = read(entry + 8);
            let offset = read(entry + 12);
            assert_eq!(offset, end);
            assert_eq!(length, 40 + size * size * 4 + size.div_ceil(32) * 4 * size);
            assert_eq!(read(offset), 40);
            assert_eq!(read(offset + 4), *size);
            assert_eq!(read(offset + 8), size * 2);
            end = offset + length;
        }
        assert_eq!(file.len(), end);
    }
}
