//! The pixel compositor: fills a BGRA framebuffer with a solid premultiplied
//! border, a rounded-rectangle cutout with a two-pixel antialiased edge band,
//! and an optional inner drop shadow.
//!
//! Geometry runs in half-pixel integer units so that the interior/band/border
//! classification against the signed distance to the rounded cutout is exact;
//! sub-pixel quantities (distance, coverage, opacities) use a fixed-point
//! scale of 1024.

use vstd::prelude::*;
use vstd::arithmetic::div_mod::{lemma_div_is_ordered, lemma_fundamental_div_mod_converse};
use vstd::pervasive::VecAdditionalExecFns;
use crate::colour::{
    premul, premultiply, spec_parse_hex_color, parse_hex_color, spec_parse_colour, parse_colour,
};
use crate::config::MergedConfig;
use crate::falloff::{
    sqrt_floor, isqrt, spec_shadow_strength, shadow_strength, lemma_sqrt_floor_bounds,
    lemma_sqrt_floor_mono, lemma_sqrt_floor_square, lemma_strength_range,
};

verus! {

/// Dimensions the rasterizer accepts: positive and within machine limits.
pub open spec fn valid_dims(w: int, h: int) -> bool {
    0 < w <= 16384 && 0 < h <= 16384
}

/// Border widths within machine limits; the radius may be any value at or
/// below the dimension cap (at or below zero selects the hard-edged path).
pub open spec fn valid_config(c: MergedConfig) -> bool {
    &&& 0 <= c.left <= 16384
    &&& 0 <= c.right <= 16384
    &&& 0 <= c.top <= 16384
    &&& 0 <= c.bottom <= 16384
    &&& c.radius <= 16384
}

/// Shadow is drawn only when explicitly enabled.
pub open spec fn spec_shadow_enabled(c: MergedConfig) -> bool {
    c.shadow_enabled == Some(true)
}

/// Clamp a 1/1024-unit value to at most one.
pub open spec fn clamp_unit(x: u16) -> int {
    if x > 1024 {
        1024int
    } else {
        x as int
    }
}

/// Effective shadow opacity (1/1024 units): the configured value clamped to
/// the unit interval, or one half when unset.
pub open spec fn spec_shadow_opacity(c: MergedConfig) -> int {
    match c.shadow_opacity {
        Some(o) => clamp_unit(o),
        None => 512,
    }
}

/// Effective blur radius in 1/1024 pixel units: the normalized blur maps to
/// 1 + 14·blur pixels, so between one and fifteen pixels.
pub open spec fn spec_shadow_blur(c: MergedConfig) -> int {
    1024 + 14 * (match c.shadow_blur {
        Some(b) => clamp_unit(b),
        None => 512,
    })
}

/// Shadow colour, parsed from the configured hex string, black when unset.
pub open spec fn spec_shadow_rgb(c: MergedConfig) -> (u8, u8, u8) {
    match c.shadow_color {
        Some(s) => spec_parse_hex_color(s@),
        None => spec_parse_hex_color("000000"@),
    }
}

/// Distance from a point to an interval, zero inside it.
pub open spec fn axis_gap(p: int, lo: int, hi: int) -> int {
    if p < lo {
        lo - p
    } else if p > hi {
        p - hi
    } else {
        0
    }
}

/// Right edge of the inner rectangle, clamped so it never precedes the left.
pub open spec fn inset_x1(c: MergedConfig, w: int) -> int {
    if w - c.right >= c.left {
        w - c.right
    } else {
        c.left as int
    }
}

/// Bottom edge of the inner rectangle, clamped likewise.
pub open spec fn inset_y1(c: MergedConfig, h: int) -> int {
    if h - c.bottom >= c.top {
        h - c.bottom
    } else {
        c.top as int
    }
}

/// Squared distance (in quarter-pixel² units) from the centre of pixel
/// `(x, y)` to the inner rectangle.
pub open spec fn spec_d2(c: MergedConfig, w: int, h: int, x: int, y: int) -> int {
    let dx = axis_gap(2 * x + 1, 2 * c.left, 2 * inset_x1(c, w));
    let dy = axis_gap(2 * y + 1, 2 * c.top, 2 * inset_y1(c, h));
    dx * dx + dy * dy
}

/// Clamp a non-negative value to a byte.
pub open spec fn clamp255(v: int) -> u8
    recommends
        0 <= v,
{
    if v >= 255 {
        255u8
    } else {
        v as u8
    }
}

/// Scale a byte by a 1/1024-unit factor, rounding to nearest.
pub open spec fn scale_byte(ch: u8, f: int) -> u8
    recommends
        0 <= f <= 1024,
{
    ((ch * f + 512) / 1024) as u8
}

/// The colour of one pixel, from the premultiplied base channels.
/// `pb`, `pg`, `pr` are the premultiplied blue, green and red; `pa` the
/// alpha; the result is in buffer byte order (B, G, R, A).
pub open spec fn spec_pixel_pm(
    c: MergedConfig,
    pb: u8,
    pg: u8,
    pr: u8,
    pa: u8,
    w: int,
    h: int,
    x: int,
    y: int,
) -> (u8, u8, u8, u8) {
    if c.radius <= 0 {
        // Hard-edged path: the inner rectangle is cut to fully transparent;
        // the shadow is never evaluated here.
        if c.left <= x && x < w - c.right && c.top <= y && y < h - c.bottom {
            (0u8, 0u8, 0u8, 0u8)
        } else {
            (pb, pg, pr, pa)
        }
    } else {
        let rad = c.radius as int;
        let rh = 2 * rad;
        let dd = spec_d2(c, w, h, x, y);
        if dd <= (rh - 2) * (rh - 2) {
            // Interior: signed distance at most -1.
            if spec_shadow_enabled(c) {
                let dist_fp = sqrt_floor((dd * 262144) as nat) as int;
                let inner = rad * 1024 - dist_fp;
                let blur = spec_shadow_blur(c);
                if inner <= blur {
                    let strength = spec_shadow_strength(spec_shadow_opacity(c), inner, blur);
                    let srgb = spec_shadow_rgb(c);
                    (
                        scale_byte(srgb.2, strength),
                        scale_byte(srgb.1, strength),
                        scale_byte(srgb.0, strength),
                        scale_byte(255, strength),
                    )
                } else {
                    (0u8, 0u8, 0u8, 0u8)
                }
            } else {
                (0u8, 0u8, 0u8, 0u8)
            }
        } else if dd >= (rh + 2) * (rh + 2) {
            // Border: signed distance at least 1; the base colour stands.
            (pb, pg, pr, pa)
        } else {
            // Antialiased band: coverage falls linearly with the distance.
            let dist_fp = sqrt_floor((dd * 262144) as nat) as int;
            let cov = ((rad + 1) * 1024 - dist_fp) / 2;
            if spec_shadow_enabled(c) && cov > 0 {
                let sa = spec_shadow_opacity(c) * cov / 1024;
                let bf = 1024 - cov;
                let srgb = spec_shadow_rgb(c);
                (
                    clamp255((srgb.2 * sa + pb * bf + 512) / 1024),
                    clamp255((srgb.1 * sa + pg * bf + 512) / 1024),
                    clamp255((srgb.0 * sa + pr * bf + 512) / 1024),
                    clamp255((255 * sa + pa * bf + 512) / 1024),
                )
            } else {
                let bf = 1024 - cov;
                (scale_byte(pb, bf), scale_byte(pg, bf), scale_byte(pr, bf), scale_byte(pa, bf))
            }
        }
    }
}

/// The colour of one pixel from the raw base colour and alpha.
pub open spec fn spec_pixel(
    c: MergedConfig,
    r: u8,
    g: u8,
    b: u8,
    a: u8,
    w: int,
    h: int,
    x: int,
    y: int,
) -> (u8, u8, u8, u8) {
    spec_pixel_pm(c, premul(b, a), premul(g, a), premul(r, a), a, w, h, x, y)
}

/// Byte `i` of the rendered buffer: four bytes per pixel, rows first.
pub open spec fn spec_byte_at(
    c: MergedConfig,
    r: u8,
    g: u8,
    b: u8,
    a: u8,
    w: int,
    h: int,
    i: int,
) -> u8 {
    let pix = i / 4;
    let k = i % 4;
    let x = pix % w;
    let y = pix / w;
    let p = spec_pixel(c, r, g, b, a, w, h, x, y);
    if k == 0 {
        p.0
    } else if k == 1 {
        p.1
    } else if k == 2 {
        p.2
    } else {
        p.3
    }
}

/// Shadow settings resolved once per redraw.
pub struct ShadowParams {
    pub enabled: bool,
    pub sr: u8,
    pub sg: u8,
    pub sb: u8,
    pub opacity: u16,
    pub blur: u64,
}

pub open spec fn shadow_params_match(s: ShadowParams, c: MergedConfig) -> bool {
    &&& s.enabled == spec_shadow_enabled(c)
    &&& (s.sr, s.sg, s.sb) == spec_shadow_rgb(c)
    &&& s.opacity as int == spec_shadow_opacity(c)
    &&& s.blur as int == spec_shadow_blur(c)
}

/// Resolve the shadow settings of a configuration.
pub fn shadow_params(c: &MergedConfig) -> (s: ShadowParams)
    ensures
        shadow_params_match(s, *c),
        s.opacity <= 1024,
        1024 <= s.blur <= 15360,
{
    let enabled = match c.shadow_enabled {
        Some(e) => e,
        None => false,
    };
    let rgb = match &c.shadow_color {
        Some(s) => parse_hex_color(s.as_str()),
        None => parse_hex_color("000000"),
    };
    let opacity: u16 = match c.shadow_opacity {
        Some(o) => if o > 1024 {
            1024
        } else {
            o
        },
        None => 512,
    };
    let blur_cfg: u64 = match c.shadow_blur {
        Some(b) => if b > 1024 {
            1024
        } else {
            b as u64
        },
        None => 512,
    };
    let blur: u64 = 1024 + 14 * blur_cfg;
    ShadowParams { enabled, sr: rgb.0, sg: rgb.1, sb: rgb.2, opacity, blur }
}

fn clamp255_exec(v: u64) -> (b: u8)
    ensures
        b == clamp255(v as int),
{
    if v >= 255 {
        255
    } else {
        v as u8
    }
}

fn scale_byte_exec(ch: u8, f: u64) -> (b: u8)
    requires
        f <= 1024,
    ensures
        b == scale_byte(ch, f as int),
{
    proof {
        assert((ch as u64) * f <= 261120) by (nonlinear_arith)
            requires
                ch <= 255,
                f <= 1024,
        ;
    }
    (((ch as u64) * f + 512) / 1024) as u8
}

/// A squared distance is never negative.
proof fn lemma_d2_nonneg(c: MergedConfig, w: int, h: int, x: int, y: int)
    ensures
        0 <= spec_d2(c, w, h, x, y),
{
    let dx = axis_gap(2 * x + 1, 2 * c.left, 2 * inset_x1(c, w));
    let dy = axis_gap(2 * y + 1, 2 * c.top, 2 * inset_y1(c, h));
    assert(0 <= dx * dx + dy * dy) by (nonlinear_arith);
}

/// The distance bounds that hold for an interior pixel: the fixed-point
/// distance stays below the radius by at least one pixel.
proof fn lemma_interior_dist(dd: int, rad: int)
    requires
        1 <= rad <= 16384,
        0 <= dd,
        dd <= (2 * rad - 2) * (2 * rad - 2),
    ensures
        sqrt_floor((dd * 262144) as nat) <= (rad - 1) * 1024,
{
    assert((2 * rad - 2) * (2 * rad - 2) * 262144 == ((rad - 1) * 1024) * ((rad - 1) * 1024))
        by (nonlinear_arith);
    assert(dd * 262144 <= (2 * rad - 2) * (2 * rad - 2) * 262144) by (nonlinear_arith)
        requires
            dd <= (2 * rad - 2) * (2 * rad - 2),
    ;
    lemma_sqrt_floor_mono((dd * 262144) as nat, (((rad - 1) * 1024) * ((rad - 1) * 1024)) as nat);
    lemma_sqrt_floor_square(((rad - 1) * 1024) as nat);
}

/// The distance bounds that hold for a band pixel: the fixed-point distance
/// lies within one pixel of the radius.
proof fn lemma_band_dist(dd: int, rad: int)
    requires
        1 <= rad <= 16384,
        0 <= dd,
        dd > (2 * rad - 2) * (2 * rad - 2),
        dd < (2 * rad + 2) * (2 * rad + 2),
    ensures
        (rad - 1) * 1024 <= sqrt_floor((dd * 262144) as nat) < (rad + 1) * 1024,
{
    let lo = (rad - 1) * 1024;
    let hi = (rad + 1) * 1024;
    assert((2 * rad - 2) * (2 * rad - 2) * 262144 == lo * lo) by (nonlinear_arith)
        requires
            lo == (rad - 1) * 1024,
    ;
    assert((2 * rad + 2) * (2 * rad + 2) * 262144 == hi * hi) by (nonlinear_arith)
        requires
            hi == (rad + 1) * 1024,
    ;
    assert(lo * lo <= dd * 262144) by (nonlinear_arith)
        requires
            (2 * rad - 2) * (2 * rad - 2) < dd,
            (2 * rad - 2) * (2 * rad - 2) * 262144 == lo * lo,
    ;
    lemma_sqrt_floor_square(lo as nat);
    assert((lo * lo) as nat == ((lo as nat) * (lo as nat)));
    lemma_sqrt_floor_mono((lo * lo) as nat, (dd * 262144) as nat);
    assert(sqrt_floor((lo * lo) as nat) == lo);
    let s = sqrt_floor((dd * 262144) as nat);
    lemma_sqrt_floor_bounds((dd * 262144) as nat);
    assert(dd * 262144 <= (2 * rad + 2) * (2 * rad + 2) * 262144 - 262144) by (nonlinear_arith)
        requires
            dd <= (2 * rad + 2) * (2 * rad + 2) - 1,
    ;
    assert(s < hi) by (nonlinear_arith)
        requires
            (s as int) * (s as int) <= dd * 262144,
            dd * 262144 < hi * hi,
            0 <= s,
            0 < hi,
    ;
}

/// One pixel of the rendered buffer, from the premultiplied base channels and
/// the resolved shadow settings.
#[verifier::rlimit(60)]
fn render_pixel(
    c: &MergedConfig,
    sp: &ShadowParams,
    pb: u8,
    pg: u8,
    pr: u8,
    pa: u8,
    w: i32,
    h: i32,
    x: i32,
    y: i32,
) -> (px: (u8, u8, u8, u8))
    requires
        valid_dims(w as int, h as int),
        valid_config(*c),
        shadow_params_match(*sp, *c),
        sp.opacity <= 1024,
        1024 <= sp.blur <= 15360,
        0 <= x < w,
        0 <= y < h,
    ensures
        px == spec_pixel_pm(*c, pb, pg, pr, pa, w as int, h as int, x as int, y as int),
{
    if c.radius <= 0 {
        if c.left <= x && x < w - c.right && c.top <= y && y < h - c.bottom {
            (0, 0, 0, 0)
        } else {
            (pb, pg, pr, pa)
        }
    } else {
        let rad: i64 = c.radius as i64;
        let rh: i64 = 2 * rad;
        let ix0: i64 = 2 * (c.left as i64);
        let wr: i64 = (w as i64) - (c.right as i64);
        let ix1: i64 = if wr >= c.left as i64 {
            2 * wr
        } else {
            2 * (c.left as i64)
        };
        let iy0: i64 = 2 * (c.top as i64);
        let hb: i64 = (h as i64) - (c.bottom as i64);
        let iy1: i64 = if hb >= c.top as i64 {
            2 * hb
        } else {
            2 * (c.top as i64)
        };
        let cx: i64 = 2 * (x as i64) + 1;
        let cy: i64 = 2 * (y as i64) + 1;
        let dx: i64 = if cx < ix0 {
            ix0 - cx
        } else if cx > ix1 {
            cx - ix1
        } else {
            0
        };
        let dy: i64 = if cy < iy0 {
            iy0 - cy
        } else if cy > iy1 {
            cy - iy1
        } else {
            0
        };
        proof {
            assert(dx * dx <= 32768 * 32768 && dy * dy <= 32768 * 32768) by (nonlinear_arith)
                requires
                    0 <= dx <= 32768,
                    0 <= dy <= 32768,
            ;
        }
        let dd: u64 = (dx * dx + dy * dy) as u64;
        proof {
            assert(dd == spec_d2(*c, w as int, h as int, x as int, y as int));
            assert((rh - 2) * (rh - 2) <= 32768 * 32768 && (rh + 2) * (rh + 2) <= 32770 * 32770)
                by (nonlinear_arith)
                requires
                    2 <= rh <= 32768,
            ;
        }
        let inner_sq: u64 = ((rh - 2) * (rh - 2)) as u64;
        let outer_sq: u64 = ((rh + 2) * (rh + 2)) as u64;
        if dd <= inner_sq {
            if sp.enabled {
                proof {
                    lemma_interior_dist(dd as int, rad as int);
                }
                let dist_fp = isqrt(dd * 262144);
                let inner = (rad as u64) * 1024 - dist_fp;
                if inner <= sp.blur {
                    let strength = shadow_strength(sp.opacity, inner, sp.blur);
                    (
                        scale_byte_exec(sp.sb, strength),
                        scale_byte_exec(sp.sg, strength),
                        scale_byte_exec(sp.sr, strength),
                        scale_byte_exec(255, strength),
                    )
                } else {
                    (0, 0, 0, 0)
                }
            } else {
                (0, 0, 0, 0)
            }
        } else if dd >= outer_sq {
            (pb, pg, pr, pa)
        } else {
            proof {
                lemma_band_dist(dd as int, rad as int);
            }
            let dist_fp = isqrt(dd * 262144);
            let cov: u64 = ((rad as u64 + 1) * 1024 - dist_fp) / 2;
            proof {
                assert(cov <= 1024);
            }
            if sp.enabled && cov > 0 {
                proof {
                    assert((sp.opacity as u64) * cov <= 1048576) by (nonlinear_arith)
                        requires
                            sp.opacity <= 1024,
                            cov <= 1024,
                    ;
                    lemma_div_is_ordered(((sp.opacity as u64) * cov) as int, 1048576int, 1024);
                }
                let sa: u64 = (sp.opacity as u64) * cov / 1024;
                let bf: u64 = 1024 - cov;
                proof {
                    assert((sp.sb as u64) * sa <= 261120 && (sp.sg as u64) * sa <= 261120 && (
                    sp.sr as u64) * sa <= 261120 && 255 * sa <= 261120 && (pb as u64) * bf
                        <= 261120 && (pg as u64) * bf <= 261120 && (pr as u64) * bf <= 261120 && (
                    pa as u64) * bf <= 261120) by (nonlinear_arith)
                        requires
                            sa <= 1024,
                            bf <= 1024,
                            sp.sb <= 255,
                            sp.sg <= 255,
                            sp.sr <= 255,
                            pb <= 255,
                            pg <= 255,
                            pr <= 255,
                            pa <= 255,
                    ;
                }
                (
                    clamp255_exec(((sp.sb as u64) * sa + (pb as u64) * bf + 512) / 1024),
                    clamp255_exec(((sp.sg as u64) * sa + (pg as u64) * bf + 512) / 1024),
                    clamp255_exec(((sp.sr as u64) * sa + (pr as u64) * bf + 512) / 1024),
                    clamp255_exec((255 * sa + (pa as u64) * bf + 512) / 1024),
                )
            } else {
                let bf: u64 = 1024 - cov;
                (
                    scale_byte_exec(pb, bf),
                    scale_byte_exec(pg, bf),
                    scale_byte_exec(pr, bf),
                    scale_byte_exec(pa, bf),
                )
            }
        }
    }
}

/// How the four bytes of pixel `(x, y)` index into the buffer.
proof fn lemma_byte_index(w: int, h: int, x: int, y: int, k: int)
    requires
        0 < w,
        0 <= x < w,
        0 <= y < h,
        0 <= k < 4,
    ensures
        ((y * w + x) * 4 + k) / 4 == y * w + x,
        ((y * w + x) * 4 + k) % 4 == k,
        (y * w + x) % w == x,
        (y * w + x) / w == y,
{
    let pix = y * w + x;
    assert(0 <= pix) by (nonlinear_arith)
        requires
            0 <= x,
            0 <= y,
            0 < w,
            pix == y * w + x,
    ;
    lemma_fundamental_div_mod_converse(pix * 4 + k, 4, pix, k);
    lemma_fundamental_div_mod_converse(pix, w, y, x);
}

/// Fill the whole buffer: every byte is exactly what the per-pixel
/// specification says, so the rasterizer is a pure function of its inputs.
pub fn draw_snug(
    canvas: &mut Vec<u8>,
    width: i32,
    height: i32,
    r: u8,
    g: u8,
    b: u8,
    a: u8,
    config: &MergedConfig,
)
    requires
        valid_dims(width as int, height as int),
        valid_config(*config),
        old(canvas)@.len() == (width as int) * (height as int) * 4,
    ensures
        final(canvas)@.len() == old(canvas)@.len(),
        forall|i: int|
            0 <= i < final(canvas)@.len() ==> final(canvas)@[i] == spec_byte_at(
                *config,
                r,
                g,
                b,
                a,
                width as int,
                height as int,
                i,
            ),
{
    let ghost wi = width as int;
    let ghost hi = height as int;
    let sp = shadow_params(config);
    let pr = premultiply(r, a);
    let pg = premultiply(g, a);
    let pb = premultiply(b, a);
    let w = width as usize;
    let h = height as usize;
    let mut y: usize = 0;
    while y < h
        invariant
            y <= h,
            w == wi,
            h == hi,
            wi == width as int,
            hi == height as int,
            valid_dims(wi, hi),
            valid_config(*config),
            shadow_params_match(sp, *config),
            sp.opacity <= 1024,
            1024 <= sp.blur <= 15360,
            pr == premul(r, a),
            pg == premul(g, a),
            pb == premul(b, a),
            canvas@.len() == wi * hi * 4,
            forall|i: int|
                0 <= i < (y as int) * wi * 4 ==> canvas@[i] == spec_byte_at(
                    *config,
                    r,
                    g,
                    b,
                    a,
                    wi,
                    hi,
                    i,
                ),
        decreases h - y,
    {
        let mut x: usize = 0;
        proof {
            assert((y as int) * wi * 4 == ((y as int) * wi + 0) * 4);
        }
        while x < w
            invariant
                x <= w,
                y < h,
                w == wi,
                h == hi,
                wi == width as int,
                hi == height as int,
                valid_dims(wi, hi),
                valid_config(*config),
                shadow_params_match(sp, *config),
                sp.opacity <= 1024,
                1024 <= sp.blur <= 15360,
                pr == premul(r, a),
                pg == premul(g, a),
                pb == premul(b, a),
                canvas@.len() == wi * hi * 4,
                forall|i: int|
                    0 <= i < ((y as int) * wi + x as int) * 4 ==> canvas@[i] == spec_byte_at(
                        *config,
                        r,
                        g,
                        b,
                        a,
                        wi,
                        hi,
                        i,
                    ),
            decreases w - x,
        {
            let px = render_pixel(config, &sp, pb, pg, pr, a, width, height, x as i32, y as i32);
            proof {
                assert(((y as int) * wi + (x as int)) < wi * hi && 0 <= (y as int) * wi + (
                x as int) && (y as int) * wi <= 268419072) by (nonlinear_arith)
                    requires
                        0 <= (y as int) < hi,
                        0 <= (x as int) < wi,
                        0 < wi <= 16384,
                        0 < hi <= 16384,
                ;
            }
            let idx = (y * w + x) * 4;
            canvas.set(idx, px.0);
            canvas.set(idx + 1, px.1);
            canvas.set(idx + 2, px.2);
            canvas.set(idx + 3, px.3);
            proof {
                let pix = (y as int) * wi + x as int;
                assert forall|i: int| 0 <= i < (pix + 1) * 4 implies canvas@[i] == spec_byte_at(
                    *config,
                    r,
                    g,
                    b,
                    a,
                    wi,
                    hi,
                    i,
                ) by {
                    if i < pix * 4 {
                    } else {
                        let k = i - pix * 4;
                        lemma_byte_index(wi, hi, x as int, y as int, k);
                    }
                }
            }
            x = x + 1;
        }
        proof {
            assert(((y as int) * wi + wi) * 4 == ((y as int) + 1) * wi * 4) by (nonlinear_arith);
        }
        y = y + 1;
    }
}

/// Byte `i` of a frame rendered straight from a configuration: the base
/// colour and alpha come from the configured hex string and opacity override.
pub open spec fn spec_frame_byte(c: MergedConfig, w: int, h: int, i: int) -> u8 {
    let rgba = spec_parse_colour(c.color@, c.opacity);
    spec_byte_at(c, rgba.0, rgba.1, rgba.2, rgba.3, w, h, i)
}

/// One full redraw: parse the configured colour, then rasterize.
pub fn render_frame(canvas: &mut Vec<u8>, width: i32, height: i32, config: &MergedConfig)
    requires
        valid_dims(width as int, height as int),
        valid_config(*config),
        old(canvas)@.len() == (width as int) * (height as int) * 4,
    ensures
        final(canvas)@.len() == old(canvas)@.len(),
        forall|i: int|
            0 <= i < final(canvas)@.len() ==> final(canvas)@[i] == spec_frame_byte(
                *config,
                width as int,
                height as int,
                i,
            ),
{
    let rgba = parse_colour(config.color.as_str(), config.opacity);
    draw_snug(canvas, width, height, rgba.0, rgba.1, rgba.2, rgba.3, config);
}

/// The four border rectangles that keep pointer input, as (x, y, width,
/// height): top and bottom bands across the full width, then the left and
/// right bands between them.
pub fn border_input_rects(width: i32, height: i32, config: &MergedConfig) -> (rects: Vec<
    (i32, i32, i32, i32),
>)
    requires
        valid_dims(width as int, height as int),
        valid_config(*config),
    ensures
        rects@.len() == 4,
        rects@[0] == (0i32, 0i32, width, config.top),
        rects@[1] == (0i32, (height - config.bottom) as i32, width, config.bottom),
        rects@[2] == (0i32, config.top, config.left, (height - config.top - config.bottom) as i32),
        rects@[3] == ((width - config.right) as i32, config.top, config.right, (height
            - config.top - config.bottom) as i32),
{
    let mut rects: Vec<(i32, i32, i32, i32)> = Vec::new();
    let side_h = height - config.top - config.bottom;
    rects.push((0, 0, width, config.top));
    rects.push((0, height - config.bottom, width, config.bottom));
    rects.push((0, config.top, config.left, side_h));
    rects.push((width - config.right, config.top, config.right, side_h));
    rects
}

/// With a radius at or below zero the output is fully transparent exactly on
/// the inner rectangle `[left, w-right) x [top, h-bottom)` and the solid
/// premultiplied base colour everywhere else.
pub proof fn lemma_hard_edge_classification(
    c: MergedConfig,
    r: u8,
    g: u8,
    b: u8,
    a: u8,
    w: int,
    h: int,
    x: int,
    y: int,
)
    requires
        valid_dims(w, h),
        valid_config(c),
        c.radius <= 0,
        0 <= x < w,
        0 <= y < h,
    ensures
        (c.left <= x && x < w - c.right && c.top <= y && y < h - c.bottom) ==> spec_pixel(
            c,
            r,
            g,
            b,
            a,
            w,
            h,
            x,
            y,
        ) == (0u8, 0u8, 0u8, 0u8),
        !(c.left <= x && x < w - c.right && c.top <= y && y < h - c.bottom) ==> spec_pixel(
            c,
            r,
            g,
            b,
            a,
            w,
            h,
            x,
            y,
        ) == (premul(b, a), premul(g, a), premul(r, a), a),
{
}

/// With a radius at or below zero the shadow settings never reach the output:
/// two configurations that agree on the geometry and differ at most in their
/// shadow fields render every pixel identically.
pub proof fn lemma_hard_edge_ignores_shadow(
    c1: MergedConfig,
    c2: MergedConfig,
    r: u8,
    g: u8,
    b: u8,
    a: u8,
    w: int,
    h: int,
    x: int,
    y: int,
)
    requires
        c1.radius <= 0,
        c1.radius == c2.radius,
        c1.left == c2.left,
        c1.right == c2.right,
        c1.top == c2.top,
        c1.bottom == c2.bottom,
    ensures
        spec_pixel(c1, r, g, b, a, w, h, x, y) == spec_pixel(c2, r, g, b, a, w, h, x, y),
{
}

/// With a positive radius and the shadow disabled, a pixel whose signed
/// distance to the rounded cutout is at most -1 (squared half-unit distance
/// within `(2r-2)^2`) is fully transparent.
pub proof fn lemma_rounded_interior_transparent(
    c: MergedConfig,
    r: u8,
    g: u8,
    b: u8,
    a: u8,
    w: int,
    h: int,
    x: int,
    y: int,
)
    requires
        valid_dims(w, h),
        valid_config(c),
        c.radius >= 1,
        !spec_shadow_enabled(c),
        spec_d2(c, w, h, x, y) <= (2 * c.radius - 2) * (2 * c.radius - 2),
    ensures
        spec_pixel(c, r, g, b, a, w, h, x, y) == (0u8, 0u8, 0u8, 0u8),
{
}

/// With a positive radius, a pixel whose signed distance to the rounded
/// cutout is at least 1 (squared half-unit distance at or past `(2r+2)^2`)
/// carries the solid premultiplied base colour, shadow or not.
pub proof fn lemma_rounded_border_solid(
    c: MergedConfig,
    r: u8,
    g: u8,
    b: u8,
    a: u8,
    w: int,
    h: int,
    x: int,
    y: int,
)
    requires
        valid_dims(w, h),
        valid_config(c),
        c.radius >= 1,
        spec_d2(c, w, h, x, y) >= (2 * c.radius + 2) * (2 * c.radius + 2),
    ensures
        spec_pixel(c, r, g, b, a, w, h, x, y) == (premul(b, a), premul(g, a), premul(r, a), a),
{
    let rad = c.radius as int;
    assert((2 * rad - 2) * (2 * rad - 2) < (2 * rad + 2) * (2 * rad + 2)) by (nonlinear_arith)
        requires
            1 <= rad,
    ;
}

/// With the shadow disabled, alpha across the antialiased band is monotone in
/// the distance to the cutout: of two band pixels, the one farther out is at
/// least as opaque.
pub proof fn lemma_band_alpha_monotone(
    c: MergedConfig,
    r: u8,
    g: u8,
    b: u8,
    a: u8,
    w: int,
    h: int,
    x1: int,
    y1: int,
    x2: int,
    y2: int,
)
    requires
        valid_dims(w, h),
        valid_config(c),
        c.radius >= 1,
        !spec_shadow_enabled(c),
        (2 * c.radius - 2) * (2 * c.radius - 2) < spec_d2(c, w, h, x1, y1),
        spec_d2(c, w, h, x1, y1) < (2 * c.radius + 2) * (2 * c.radius + 2),
        (2 * c.radius - 2) * (2 * c.radius - 2) < spec_d2(c, w, h, x2, y2),
        spec_d2(c, w, h, x2, y2) < (2 * c.radius + 2) * (2 * c.radius + 2),
        spec_d2(c, w, h, x1, y1) <= spec_d2(c, w, h, x2, y2),
    ensures
        spec_pixel(c, r, g, b, a, w, h, x1, y1).3 <= spec_pixel(c, r, g, b, a, w, h, x2, y2).3,
{
    let rad = c.radius as int;
    let dd1 = spec_d2(c, w, h, x1, y1);
    let dd2 = spec_d2(c, w, h, x2, y2);
    lemma_d2_nonneg(c, w, h, x1, y1);
    lemma_d2_nonneg(c, w, h, x2, y2);
    lemma_band_dist(dd1, rad);
    lemma_band_dist(dd2, rad);
    let s1 = sqrt_floor((dd1 * 262144) as nat) as int;
    let s2 = sqrt_floor((dd2 * 262144) as nat) as int;
    lemma_sqrt_floor_mono((dd1 * 262144) as nat, (dd2 * 262144) as nat);
    let cov1 = ((rad + 1) * 1024 - s1) / 2;
    let cov2 = ((rad + 1) * 1024 - s2) / 2;
    lemma_div_is_ordered((rad + 1) * 1024 - s2, (rad + 1) * 1024 - s1, 2);
    lemma_div_is_ordered(0, (rad + 1) * 1024 - s2, 2);
    lemma_div_is_ordered((rad + 1) * 1024 - s1, 2048, 2);
    let bf1 = 1024 - cov1;
    let bf2 = 1024 - cov2;
    assert((a as int) * bf1 <= (a as int) * bf2) by (nonlinear_arith)
        requires
            bf1 <= bf2,
            0 <= a,
    ;
    lemma_div_is_ordered((a as int) * bf1 + 512, (a as int) * bf2 + 512, 1024);
    assert((a as int) * bf2 + 512 <= 261632) by (nonlinear_arith)
        requires
            a <= 255,
            0 <= bf2 <= 1024,
    ;
    lemma_div_is_ordered((a as int) * bf2 + 512, 261632, 1024);
}

/// The rasterizer is pure: two buffers rendered from identical inputs are
/// byte-identical, because each is pinned byte for byte to the same
/// specification.
pub proof fn lemma_rasterizer_pure(
    c: MergedConfig,
    r: u8,
    g: u8,
    b: u8,
    a: u8,
    w: int,
    h: int,
    buf1: Seq<u8>,
    buf2: Seq<u8>,
)
    requires
        buf1.len() == w * h * 4,
        buf2.len() == buf1.len(),
        forall|i: int| 0 <= i < buf1.len() ==> buf1[i] == spec_byte_at(c, r, g, b, a, w, h, i),
        forall|i: int| 0 <= i < buf2.len() ==> buf2[i] == spec_byte_at(c, r, g, b, a, w, h, i),
    ensures
        buf1 == buf2,
{
    assert(buf1 =~= buf2);
}

} // verus!
