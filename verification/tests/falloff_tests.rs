use snug::falloff::{isqrt, shadow_falloff, shadow_strength};

#[test]
fn isqrt_exact() {
    assert_eq!(isqrt(0), 0);
    assert_eq!(isqrt(1), 1);
    assert_eq!(isqrt(3), 1);
    assert_eq!(isqrt(4), 2);
    assert_eq!(isqrt(15), 3);
    assert_eq!(isqrt(16), 4);
    assert_eq!(isqrt(1 << 50), 1 << 25);
    assert_eq!(isqrt(u64::MAX), 4294967295);
}

#[test]
fn falloff_full_at_edge() {
    // at zero distance the falloff is exactly one, for any blur radius
    assert_eq!(shadow_falloff(0, 1024), 1024);
    assert_eq!(shadow_falloff(0, 15360), 1024);
}

#[test]
fn falloff_zero_at_and_past_blur() {
    assert_eq!(shadow_falloff(1024, 1024), 0);
    assert_eq!(shadow_falloff(5000, 4096), 0);
    assert_eq!(shadow_falloff(15360, 15360), 0);
    assert_eq!(shadow_falloff(1 << 40, 15360), 0);
}

#[test]
fn falloff_midpoint_value() {
    // halfway through a one-pixel blur: 0.7 of the smoothstep half plus 0.3
    // of the exponential tail, on the 1024 scale
    assert_eq!(shadow_falloff(512, 1024), 428);
}

#[test]
fn falloff_non_increasing() {
    for &blur in &[1024u64, 2048, 8192, 15360] {
        let mut prev = shadow_falloff(0, blur);
        let mut inner: u64 = 0;
        while inner <= blur {
            let f = shadow_falloff(inner, blur);
            assert!(f <= prev, "falloff rose at inner={inner} blur={blur}");
            assert!(f <= 1024);
            prev = f;
            inner += 64;
        }
        assert_eq!(shadow_falloff(blur, blur), 0);
    }
}

#[test]
fn strength_equals_opacity_at_edge() {
    assert_eq!(shadow_strength(768, 0, 2048), 768);
    assert_eq!(shadow_strength(0, 0, 2048), 0);
    assert_eq!(shadow_strength(1024, 0, 1024), 1024);
}

#[test]
fn strength_scales_and_vanishes() {
    assert_eq!(shadow_strength(512, 4096, 4096), 0);
    // half opacity halves the midpoint falloff (428 / 2, floored)
    assert_eq!(shadow_strength(512, 512, 1024), 214);
}
