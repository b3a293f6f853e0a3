use snug::config::MergedConfig;
use snug::drawing::{border_input_rects, draw_snug, render_frame};
use snug::falloff::shadow_strength;

fn cfg(radius: i32, border: i32) -> MergedConfig {
    MergedConfig {
        radius,
        left: border,
        right: border,
        top: border,
        bottom: border,
        color: "000000".to_string(),
        opacity: None,
        shadow_enabled: None,
        shadow_color: None,
        shadow_opacity: None,
        shadow_blur: None,
    }
}

fn px(buf: &[u8], w: i32, x: i32, y: i32) -> [u8; 4] {
    let i = ((y * w + x) * 4) as usize;
    [buf[i], buf[i + 1], buf[i + 2], buf[i + 3]]
}

const TRANSPARENT: [u8; 4] = [0, 0, 0, 0];

#[test]
fn hard_edge_exact_buffer() {
    // radius 0: hard-edged cutout, no antialiasing, exact bytes everywhere
    let c = cfg(0, 1);
    let (w, h) = (6i32, 5i32);
    let mut buf = vec![0u8; (w * h * 4) as usize];
    draw_snug(&mut buf, w, h, 255, 0, 0, 255, &c);
    let mut expected = Vec::new();
    for y in 0..h {
        for x in 0..w {
            if 1 <= x && x < w - 1 && 1 <= y && y < h - 1 {
                expected.extend_from_slice(&[0, 0, 0, 0]);
            } else {
                // BGRA, premultiplied opaque red
                expected.extend_from_slice(&[0, 0, 255, 255]);
            }
        }
    }
    assert_eq!(buf, expected);
}

#[test]
fn hard_edge_ignores_shadow() {
    let c1 = cfg(0, 2);
    let mut c2 = cfg(0, 2);
    c2.shadow_enabled = Some(true);
    c2.shadow_color = Some("ff0000".to_string());
    c2.shadow_opacity = Some(1024);
    c2.shadow_blur = Some(1024);
    let (w, h) = (16i32, 12i32);
    let mut b1 = vec![0u8; (w * h * 4) as usize];
    let mut b2 = vec![0u8; (w * h * 4) as usize];
    draw_snug(&mut b1, w, h, 10, 20, 30, 255, &c1);
    draw_snug(&mut b2, w, h, 10, 20, 30, 255, &c2);
    assert_eq!(b1, b2);
}

#[test]
fn rasterizer_purity() {
    let mut c = cfg(6, 12);
    c.shadow_enabled = Some(true);
    c.shadow_color = Some("123456".to_string());
    c.shadow_opacity = Some(700);
    c.shadow_blur = Some(300);
    let (w, h) = (40i32, 30i32);
    let mut b1 = vec![0u8; (w * h * 4) as usize];
    let mut b2 = vec![0xAAu8; (w * h * 4) as usize];
    draw_snug(&mut b1, w, h, 33, 66, 99, 200, &c);
    draw_snug(&mut b2, w, h, 33, 66, 99, 200, &c);
    assert_eq!(b1, b2);
}

#[test]
fn band_alpha_monotone_in_distance() {
    // no shadow: along a vertical line through the top edge the alpha rises
    // with the distance to the cutout
    let c = cfg(10, 20);
    let (w, h) = (60i32, 60i32);
    let mut buf = vec![0u8; (w * h * 4) as usize];
    draw_snug(&mut buf, w, h, 0, 0, 0, 255, &c);
    let mut prev_alpha = 255u8;
    // y = 8 is solid border, y = 11 interior-transparent; walk outward-in
    for y in 8..=11 {
        let a = px(&buf, w, 30, y)[3];
        assert!(a <= prev_alpha, "alpha rose moving inward at y={y}");
        prev_alpha = a;
    }
    assert_eq!(px(&buf, w, 30, 8)[3], 255);
    assert_eq!(px(&buf, w, 30, 11), TRANSPARENT);
}

#[test]
fn end_to_end_full_screen_overlay() {
    // the default overlay on a full-HD surface
    let c = cfg(15, 30);
    let (w, h) = (1920i32, 1080i32);
    let mut buf = vec![0u8; (w * h * 4) as usize];
    render_frame(&mut buf, w, h, &c);
    let black = [0u8, 0, 0, 255];
    // outer corners and edge bands: solid premultiplied black
    assert_eq!(px(&buf, w, 0, 0), black);
    assert_eq!(px(&buf, w, 1919, 0), black);
    assert_eq!(px(&buf, w, 0, 1079), black);
    assert_eq!(px(&buf, w, 1919, 1079), black);
    assert_eq!(px(&buf, w, 960, 5), black);
    assert_eq!(px(&buf, w, 960, 1074), black);
    assert_eq!(px(&buf, w, 5, 540), black);
    assert_eq!(px(&buf, w, 1914, 540), black);
    // the whole inner rectangle is transparent
    for x in (30..1890).step_by(100) {
        assert_eq!(px(&buf, w, x, 540), TRANSPARENT);
        assert_eq!(px(&buf, w, x, 30), TRANSPARENT);
        assert_eq!(px(&buf, w, x, 1049), TRANSPARENT);
    }
    // the cutout reaches radius beyond the inner rectangle: transparent
    // within it, solid past it, antialiased on the rim
    assert_eq!(px(&buf, w, 960, 20), TRANSPARENT);
    assert_eq!(px(&buf, w, 960, 13), black);
    let rim = px(&buf, w, 960, 14);
    assert!(rim[3] > 0 && rim[3] < 255, "edge rim not antialiased: {rim:?}");
    // quarter-circle at the top-left inner corner
    assert_eq!(px(&buf, w, 16, 16), black);
    assert_eq!(px(&buf, w, 22, 22), TRANSPARENT);
    let corner = px(&buf, w, 19, 19);
    assert!(corner[3] > 0 && corner[3] < 255, "corner not antialiased: {corner:?}");
    // bottom-right inner corner mirrors it
    assert_eq!(px(&buf, w, 1903, 1063), black);
    assert_eq!(px(&buf, w, 1897, 1057), TRANSPARENT);
}

#[test]
fn shadow_written_inside_cutout() {
    let mut c = cfg(5, 10);
    c.shadow_enabled = Some(true);
    c.shadow_color = Some("ff0000".to_string());
    c.shadow_opacity = Some(1024);
    c.shadow_blur = Some(1024);  // blur radius 15 px: covers the interior here
    let (w, h) = (40i32, 40i32);
    let mut buf = vec![0u8; (w * h * 4) as usize];
    render_frame(&mut buf, w, h, &c);
    // deep interior pixel: distance 0 to the inner rectangle, so the inner
    // distance to the cutout boundary is the radius itself
    let p = px(&buf, w, 20, 20);
    let strength = shadow_strength(1024, 5 * 1024, 15360);
    let expected_ra = ((255 * strength + 512) / 1024) as u8;
    assert_eq!(p, [0, 0, expected_ra, expected_ra]);
    assert!(p[3] > 0, "shadow missing inside the cutout");
}

#[test]
fn shadow_blends_with_border_in_band() {
    // full shadow opacity over an opaque border: in the band the two
    // premultiplied contributions sum to full alpha
    let mut c = cfg(4, 8);
    c.shadow_enabled = Some(true);
    c.shadow_color = Some("00ff00".to_string());
    c.shadow_opacity = Some(1024);
    c.shadow_blur = Some(0);
    let (w, h) = (32i32, 32i32);
    let mut buf = vec![0u8; (w * h * 4) as usize];
    render_frame(&mut buf, w, h, &c);
    // pixel centre 3.5 px outside the inner rectangle: in the band, with
    // coverage 768/1024, so shadow green 191 and combined alpha 255
    assert_eq!(px(&buf, w, 16, 4), [0, 191, 0, 255]);
    // without the shadow the same pixel is partially transparent border
    let mut buf2 = vec![0u8; (w * h * 4) as usize];
    render_frame(&mut buf2, w, h, &cfg(4, 8));
    assert!(px(&buf2, w, 16, 4)[3] < 255);
}

#[test]
fn shadow_free_interior_when_disabled() {
    let c = cfg(5, 10);
    let (w, h) = (40i32, 40i32);
    let mut buf = vec![0u8; (w * h * 4) as usize];
    render_frame(&mut buf, w, h, &c);
    assert_eq!(px(&buf, w, 20, 20), TRANSPARENT);
}

#[test]
fn degenerate_inner_rectangle_clamped() {
    // borders wider than the surface: no transparent region at all
    let c = cfg(0, 40);
    let (w, h) = (20i32, 10i32);
    let mut buf = vec![0u8; (w * h * 4) as usize];
    draw_snug(&mut buf, w, h, 0, 0, 0, 255, &c);
    for y in 0..h {
        for x in 0..w {
            assert_eq!(px(&buf, w, x, y), [0, 0, 0, 255]);
        }
    }
}

#[test]
fn opacity_override_premultiplies_base() {
    let mut c = cfg(0, 1);
    c.color = "ffffff".to_string();
    c.opacity = Some(512);  // alpha 127
    let (w, h) = (4i32, 4i32);
    let mut buf = vec![0u8; (w * h * 4) as usize];
    render_frame(&mut buf, w, h, &c);
    // premul(255, 127) = round(255 * 127 / 255) = 127
    assert_eq!(px(&buf, w, 0, 0), [127, 127, 127, 127]);
}

#[test]
fn input_region_rects() {
    let c = cfg(15, 30);
    let rects = border_input_rects(1920, 1080, &c);
    assert_eq!(
        rects,
        vec![
            (0, 0, 1920, 30),
            (0, 1050, 1920, 30),
            (0, 30, 30, 1020),
            (1890, 30, 30, 1020),
        ]
    );
}
