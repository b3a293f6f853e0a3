//! Hex colour parsing and premultiplied-alpha conversion.
//!
//! Colours arrive as `RRGGBB` or `RRGGBBAA` hex strings, optionally prefixed
//! by `#`. An opacity override, expressed in units of 1/1024, takes precedence
//! over any alpha parsed from the string.

use vstd::prelude::*;

verus! {

/// True when `c` is an ASCII hexadecimal digit.
pub open spec fn is_hex_digit(c: char) -> bool {
    (48 <= c as u32 && c as u32 <= 57)  // '0'..='9'
    || (97 <= c as u32 && c as u32 <= 102)  // 'a'..='f'
    || (65 <= c as u32 && c as u32 <= 70)  // 'A'..='F'
}

/// Numeric value of a hexadecimal digit; 0 for anything else.
pub open spec fn hex_digit_val(c: char) -> u8 {
    if 48 <= c as u32 && c as u32 <= 57 {
        (c as u32 - 48) as u8
    } else if 97 <= c as u32 && c as u32 <= 102 {
        (c as u32 - 87) as u8
    } else if 65 <= c as u32 && c as u32 <= 70 {
        (c as u32 - 55) as u8
    } else {
        0
    }
}

/// Value of the two-digit hex component at position `i`, or `fallback` when
/// either character is not a hex digit.
pub open spec fn spec_hex_pair_or(s: Seq<char>, i: int, fallback: u8) -> u8
    recommends
        0 <= i,
        i + 2 <= s.len(),
{
    if is_hex_digit(s[i]) && is_hex_digit(s[i + 1]) {
        (16 * hex_digit_val(s[i]) + hex_digit_val(s[i + 1])) as u8
    } else {
        fallback
    }
}

/// The string with every leading `#` removed.
pub open spec fn strip_hash_prefix(s: Seq<char>) -> Seq<char>
    decreases s.len(),
{
    if s.len() > 0 && s[0] == '#' {
        strip_hash_prefix(s.subrange(1, s.len() as int))
    } else {
        s
    }
}

/// An `RRGGBB` string (after `#`-stripping) parses to its three components,
/// an ill-formed component to 0; anything of another length parses to black.
pub open spec fn spec_parse_hex_color(s: Seq<char>) -> (u8, u8, u8) {
    let t = strip_hash_prefix(s);
    if t.len() == 6 {
        (spec_hex_pair_or(t, 0, 0), spec_hex_pair_or(t, 2, 0), spec_hex_pair_or(t, 4, 0))
    } else {
        (0, 0, 0)
    }
}

/// Alpha channel: an override (1/1024 units, clamped to one) takes precedence;
/// otherwise the fourth hex pair when present, ill-formed pairs and shorter
/// strings defaulting to fully opaque.
pub open spec fn spec_alpha(t: Seq<char>, opacity_override: Option<u16>) -> u8 {
    match opacity_override {
        Some(o) => {
            let clamped = if o > 1024 {
                1024
            } else {
                o as int
            };
            (clamped * 255 / 1024) as u8
        },
        None => if t.len() >= 8 {
            spec_hex_pair_or(t, 6, 255)
        } else {
            255
        },
    }
}

/// Full colour parse: RGB from the first six characters when at least six are
/// present (0 otherwise), alpha as `spec_alpha` says.
pub open spec fn spec_parse_colour(s: Seq<char>, opacity_override: Option<u16>) -> (
    u8,
    u8,
    u8,
    u8,
) {
    let t = strip_hash_prefix(s);
    let rgb = if t.len() >= 6 {
        (spec_hex_pair_or(t, 0, 0), spec_hex_pair_or(t, 2, 0), spec_hex_pair_or(t, 4, 0))
    } else {
        (0, 0, 0)
    };
    (rgb.0, rgb.1, rgb.2, spec_alpha(t, opacity_override))
}

/// Premultiplied channel: `raw * alpha / 255`, rounded to nearest. An exact
/// half never occurs because 255 is odd, so rounding is unambiguous.
pub open spec fn premul(raw: u8, alpha: u8) -> u8 {
    ((raw * alpha + 127) / 255) as u8
}

proof fn lemma_strip_hash_prefix_skip(s: Seq<char>, k: int)
    requires
        0 <= k <= s.len(),
        forall|j: int| 0 <= j < k ==> s[j] == '#',
        k == s.len() || s[k] != '#',
    ensures
        strip_hash_prefix(s) == s.subrange(k, s.len() as int),
    decreases k,
{
    if k == 0 {
        assert(s.subrange(0, s.len() as int) =~= s);
    } else {
        let tail = s.subrange(1, s.len() as int);
        lemma_strip_hash_prefix_skip(tail, k - 1);
        assert(tail.subrange(k - 1, tail.len() as int) =~= s.subrange(k, s.len() as int));
    }
}

fn hex_digit(c: char) -> (r: Option<u8>)
    ensures
        r is Some <==> is_hex_digit(c),
        is_hex_digit(c) ==> r == Some(hex_digit_val(c)),
{
    let u = c as u32;
    if 48 <= u && u <= 57 {
        Some((u - 48) as u8)
    } else if 97 <= u && u <= 102 {
        Some((u - 87) as u8)
    } else if 65 <= u && u <= 70 {
        Some((u - 55) as u8)
    } else {
        None
    }
}

fn hex_pair_or(s: &str, i: usize, fallback: u8) -> (v: u8)
    requires
        i + 2 <= s@.len(),
        i + 2 <= usize::MAX,
    ensures
        v == spec_hex_pair_or(s@, i as int, fallback),
{
    let c0 = s.get_char(i);
    let c1 = s.get_char(i + 1);
    match (hex_digit(c0), hex_digit(c1)) {
        (Some(h), Some(l)) => 16 * h + l,
        _ => fallback,
    }
}

/// Number of leading `#` characters, so that the remainder of the string is
/// exactly `strip_hash_prefix` of the whole.
fn hash_prefix_len(s: &str) -> (start: usize)
    ensures
        start <= s@.len(),
        strip_hash_prefix(s@) == s@.subrange(start as int, s@.len() as int),
{
    let n = s.unicode_len();
    let mut start: usize = 0;
    while start < n && s.get_char(start) == '#'
        invariant
            start <= n,
            n == s@.len(),
            forall|j: int| 0 <= j < start ==> s@[j] == '#',
        decreases n - start,
    {
        start = start + 1;
    }
    proof {
        lemma_strip_hash_prefix_skip(s@, start as int);
    }
    start
}

/// Parse an `RRGGBB` hex string (leading `#`s ignored) to its RGB components.
/// A component with an invalid digit reads as 0; a string that is not exactly
/// six characters long after stripping reads as black.
pub fn parse_hex_color(hex: &str) -> (rgb: (u8, u8, u8))
    ensures
        rgb == spec_parse_hex_color(hex@),
{
    let n = hex.unicode_len();
    let start = hash_prefix_len(hex);
    let ghost t = strip_hash_prefix(hex@);
    if n - start == 6 {
        let r = hex_pair_or(hex, start, 0);
        let g = hex_pair_or(hex, start + 2, 0);
        let b = hex_pair_or(hex, start + 4, 0);
        proof {
            assert(t[0] == hex@[start as int]);
            assert(t[1] == hex@[start as int + 1]);
            assert(t[2] == hex@[start as int + 2]);
            assert(t[3] == hex@[start as int + 3]);
            assert(t[4] == hex@[start as int + 4]);
            assert(t[5] == hex@[start as int + 5]);
        }
        (r, g, b)
    } else {
        (0, 0, 0)
    }
}

/// Parse an `RRGGBB` or `RRGGBBAA` hex string with an optional opacity
/// override in units of 1/1024, which takes precedence over the alpha pair.
pub fn parse_colour(hex: &str, opacity_override: Option<u16>) -> (rgba: (u8, u8, u8, u8))
    ensures
        rgba == spec_parse_colour(hex@, opacity_override),
{
    let n = hex.unicode_len();
    let start = hash_prefix_len(hex);
    let ghost t = strip_hash_prefix(hex@);
    let t_len = n - start;
    let (r, g, b) = if t_len >= 6 {
        let r = hex_pair_or(hex, start, 0);
        let g = hex_pair_or(hex, start + 2, 0);
        let b = hex_pair_or(hex, start + 4, 0);
        proof {
            assert(t[0] == hex@[start as int]);
            assert(t[1] == hex@[start as int + 1]);
            assert(t[2] == hex@[start as int + 2]);
            assert(t[3] == hex@[start as int + 3]);
            assert(t[4] == hex@[start as int + 4]);
            assert(t[5] == hex@[start as int + 5]);
        }
        (r, g, b)
    } else {
        (0, 0, 0)
    };
    let a: u8 = match opacity_override {
        Some(o) => {
            let clamped: u32 = if o > 1024 {
                1024
            } else {
                o as u32
            };
            (clamped * 255 / 1024) as u8
        },
        None => {
            if t_len >= 8 {
                let a = hex_pair_or(hex, start + 6, 255);
                proof {
                    assert(t[6] == hex@[start as int + 6]);
                    assert(t[7] == hex@[start as int + 7]);
                }
                a
            } else {
                255
            }
        },
    };
    (r, g, b, a)
}

/// Scale a raw channel by `alpha / 255`, rounding to nearest.
pub fn premultiply(raw: u8, alpha: u8) -> (p: u8)
    ensures
        p == premul(raw, alpha),
{
    proof {
        assert((raw as u32) * (alpha as u32) <= 65025) by (nonlinear_arith)
            requires
                raw <= 255,
                alpha <= 255,
        ;
    }
    (((raw as u32) * (alpha as u32) + 127) / 255) as u8
}

} // verus!
