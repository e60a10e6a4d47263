//! Mapping of viewport (screenshot) coordinates to physical screen
//! coordinates, and reading a PNG's dimensions from its IHDR chunk.
//!
//! The mapping assumes the screenshot is rendered into the window at a
//! uniform (aspect-preserving) scale `min(window_w/screenshot_w,
//! window_h/screenshot_h)` and centered, i.e. letterboxed. It is computed
//! in exact integer arithmetic: divisions round half away from zero on
//! the non-negative values involved, matching a rounded floating-point
//! evaluation of the same formulas.

use vstd::arithmetic::div_mod::{
    lemma_div_is_ordered, lemma_div_multiples_vanish_fancy, lemma_div_pos_is_pos,
};
use vstd::prelude::*;

verus! {

/// Inputs needed to normalize coordinates robustly: the screenshot size
/// (from the PNG IHDR) and the browser window's geometry on the screen.
#[derive(Debug, Clone, Copy)]
pub struct NormalizationInputs {
    pub screenshot_w: i32,
    pub screenshot_h: i32,
    pub window_x: i32,
    pub window_y: i32,
    pub window_w: i32,
    pub window_h: i32,
}

/// A dimension set is degenerate when any extent is not positive; the
/// mapping then falls back to the window origin.
pub open spec fn degenerate(inputs: NormalizationInputs) -> bool {
    inputs.screenshot_w <= 0 || inputs.screenshot_h <= 0 || inputs.window_w <= 0
        || inputs.window_h <= 0
}

/// `a / b` rounded to the nearest integer, halves away from zero,
/// for `a >= 0, b > 0`.
pub open spec fn round_div(a: int, b: int) -> int {
    (2 * a + b) / (2 * b)
}

/// Offset of the mapped point inside the window along one axis.
/// `v` is the viewport coordinate, `extent` the screenshot extent on this
/// axis, `num/den` the uniform scale, `win` the window extent: scale `v`,
/// clamp it into the drawn image, add the centering padding, and clamp
/// into the window.
pub open spec fn spec_axis_offset(v: int, extent: int, num: int, den: int, win: int) -> int {
    let drawn = round_div(extent * num, den);
    let lim = if drawn >= 1 {
        drawn - 1
    } else {
        0
    };
    let raw = if v <= 0 {
        0
    } else {
        round_div(v * num, den)
    };
    let dv = if raw > lim {
        lim
    } else {
        raw
    };
    let pad = (win - drawn + 1) / 2;
    if pad + dv > win - 1 {
        win - 1
    } else {
        pad + dv
    }
}

/// The scale numerator and denominator: `min(window_w/screenshot_w,
/// window_h/screenshot_h)` as an exact rational.
pub open spec fn spec_scale(inputs: NormalizationInputs) -> (int, int) {
    if inputs.window_w * inputs.screenshot_h <= inputs.window_h * inputs.screenshot_w {
        (inputs.window_w as int, inputs.screenshot_w as int)
    } else {
        (inputs.window_h as int, inputs.screenshot_h as int)
    }
}

/// The full mapping: degenerate inputs map to the window origin, all
/// others through `spec_axis_offset` on each axis.
pub open spec fn spec_viewport_to_screen(
    inputs: NormalizationInputs,
    x_view: int,
    y_view: int,
) -> (int, int) {
    if degenerate(inputs) {
        (inputs.window_x as int, inputs.window_y as int)
    } else {
        let (num, den) = spec_scale(inputs);
        (
            inputs.window_x + spec_axis_offset(
                x_view,
                inputs.screenshot_w as int,
                num,
                den,
                inputs.window_w as int,
            ),
            inputs.window_y + spec_axis_offset(
                y_view,
                inputs.screenshot_h as int,
                num,
                den,
                inputs.window_h as int,
            ),
        )
    }
}

/// The drawn image never exceeds the window when the scale does not,
/// i.e. when `extent * num <= win * den`.
proof fn lemma_drawn_extent(extent: int, num: int, den: int, win: int)
    requires
        extent >= 1,
        num >= 1,
        den >= 1,
        win >= 1,
        extent * num <= win * den,
    ensures
        0 <= round_div(extent * num, den) <= win,
{
    assert(extent * num >= 1) by (nonlinear_arith)
        requires
            extent >= 1,
            num >= 1,
    ;
    let e = extent * num;
    lemma_div_pos_is_pos(2 * e + den, 2 * den);
    assert(2 * e + den <= 2 * (win * den) + den);
    lemma_div_is_ordered(2 * e + den, 2 * (win * den) + den, 2 * den);
    assert(2 * (win * den) + den == (2 * den) * win + den) by (nonlinear_arith);
    lemma_div_multiples_vanish_fancy(win, den, 2 * den);
}

/// The per-axis offset always lands inside `[0, win)` for positive
/// extents and a scale that fits the window.
proof fn lemma_axis_offset_in_window(v: int, extent: int, num: int, den: int, win: int)
    requires
        win >= 1,
        extent >= 1,
        num >= 1,
        den >= 1,
        extent * num <= win * den,
    ensures
        0 <= spec_axis_offset(v, extent, num, den, win) < win,
{
    lemma_drawn_extent(extent, num, den, win);
    let drawn = round_div(extent * num, den);
    if v > 0 {
        assert(v * num >= 0) by (nonlinear_arith)
            requires
                v >= 1,
                num >= 1,
        ;
        lemma_div_pos_is_pos(2 * (v * num) + den, 2 * den);
    }
    lemma_div_pos_is_pos(win - drawn + 1, 2);
}

/// Map a viewport point to a screen point. Degenerate dimensions yield
/// exactly the window origin; otherwise the result is always inside the
/// window rectangle. The window must be representable on the screen's
/// coordinate axis, hence the bounds on `window_x + window_w`.
pub fn viewport_to_screen(inputs: NormalizationInputs, x_view: i32, y_view: i32) -> (r: (
    i32,
    i32,
))
    requires
        inputs.window_x + inputs.window_w <= i32::MAX as int + 1,
        inputs.window_y + inputs.window_h <= i32::MAX as int + 1,
    ensures
        (r.0 as int, r.1 as int) == spec_viewport_to_screen(inputs, x_view as int, y_view as int),
        degenerate(inputs) ==> r == (inputs.window_x, inputs.window_y),
        !degenerate(inputs) ==> inputs.window_x <= r.0 < inputs.window_x + inputs.window_w
            && inputs.window_y <= r.1 < inputs.window_y + inputs.window_h,
{
    if inputs.screenshot_w <= 0 || inputs.screenshot_h <= 0 || inputs.window_w <= 0
        || inputs.window_h <= 0 {
        return (inputs.window_x, inputs.window_y);
    }
    let sw = inputs.screenshot_w as u64;
    let sh = inputs.screenshot_h as u64;
    let ww = inputs.window_w as u64;
    let wh = inputs.window_h as u64;
    proof {
        assert(ww * sh < 0x4000_0000_0000_0000 && wh * sw < 0x4000_0000_0000_0000)
            by (nonlinear_arith)
            requires
                1 <= ww < 0x8000_0000,
                1 <= sh < 0x8000_0000,
                1 <= wh < 0x8000_0000,
                1 <= sw < 0x8000_0000,
        ;
    }
    let (num, den): (u64, u64) = if ww * sh <= wh * sw {
        (ww, sw)
    } else {
        (wh, sh)
    };
    proof {
        assert(sw * num <= ww * den && sh * num <= wh * den) by (nonlinear_arith)
            requires
                1 <= sw && 1 <= sh && 1 <= ww && 1 <= wh,
                (num == ww && den == sw && ww * sh <= wh * sw) || (num == wh && den == sh && wh * sw
                    <= ww * sh),
        ;
    }
    let ox = axis_offset(x_view, sw, num, den, ww);
    let oy = axis_offset(y_view, sh, num, den, wh);
    (inputs.window_x + ox as i32, inputs.window_y + oy as i32)
}

/// One axis of the mapping, in exact unsigned arithmetic.
fn axis_offset(v: i32, extent: u64, num: u64, den: u64, win: u64) -> (r: u64)
    requires
        1 <= extent < 0x8000_0000,
        1 <= num < 0x8000_0000,
        1 <= den < 0x8000_0000,
        1 <= win < 0x8000_0000,
        extent * num <= win * den,
    ensures
        r == spec_axis_offset(v as int, extent as int, num as int, den as int, win as int),
        0 <= r < win,
{
    proof {
        assert(extent * num < 0x4000_0000_0000_0000) by (nonlinear_arith)
            requires
                1 <= extent < 0x8000_0000,
                1 <= num < 0x8000_0000,
        ;
        lemma_drawn_extent(extent as int, num as int, den as int, win as int);
        lemma_axis_offset_in_window(v as int, extent as int, num as int, den as int, win as int);
    }
    let drawn: u64 = (2 * (extent * num) + den) / (2 * den);
    let lim: u64 = if drawn >= 1 {
        drawn - 1
    } else {
        0
    };
    let raw: u64 = if v <= 0 {
        0
    } else {
        proof {
            assert((v as int) * (num as int) < 0x4000_0000_0000_0000 && 0 <= (v as int) * (
            num as int)) by (nonlinear_arith)
                requires
                    1 <= (v as int) && (v as int) < 0x8000_0000,
                    1 <= num < 0x8000_0000,
            ;
        }
        let p: u64 = (v as u64) * num;
        (2 * p + den) / (2 * den)
    };
    let dv: u64 = if raw > lim {
        lim
    } else {
        raw
    };
    let pad: u64 = (win - drawn + 1) / 2;
    let off: u64 = pad + dv;
    if off > win - 1 {
        win - 1
    } else {
        off
    }
}

/// The eight-byte PNG signature followed by at least the IHDR length,
/// tag, width and height fields.
pub open spec fn has_png_header(s: Seq<u8>) -> bool {
    s.len() >= 24 && s[0] == 0x89u8 && s[1] == 0x50u8 && s[2] == 0x4eu8 && s[3] == 0x47u8 && s[4]
        == 0x0du8 && s[5] == 0x0au8 && s[6] == 0x1au8 && s[7] == 0x0au8
}

/// The big-endian 32-bit integer at offset `i`.
pub open spec fn be32_at(s: Seq<u8>, i: int) -> int {
    s[i] * 0x100_0000 + s[i + 1] * 0x1_0000 + s[i + 2] * 0x100 + s[i + 3]
}

/// Read a PNG's width and height from its IHDR chunk; `None` when the
/// bytes are too short or do not start with the PNG signature.
pub fn png_dimensions(bytes: &[u8]) -> (r: Option<(u32, u32)>)
    ensures
        r is Some <==> has_png_header(bytes@),
        r matches Some((w, h)) ==> w == be32_at(bytes@, 16) && h == be32_at(bytes@, 20),
{
    if bytes.len() < 24 {
        return None;
    }
    if !(bytes[0] == 0x89 && bytes[1] == 0x50 && bytes[2] == 0x4e && bytes[3] == 0x47 && bytes[4]
        == 0x0d && bytes[5] == 0x0a && bytes[6] == 0x1a && bytes[7] == 0x0a) {
        return None;
    }
    let w = read_be32(bytes, 16);
    let h = read_be32(bytes, 20);
    Some((w, h))
}

/// Assemble four big-endian bytes into a `u32`.
fn read_be32(bytes: &[u8], i: usize) -> (r: u32)
    requires
        i + 4 <= bytes@.len(),
    ensures
        r == be32_at(bytes@, i as int),
{
    (bytes[i] as u32) * 0x100_0000 + (bytes[i + 1] as u32) * 0x1_0000 + (bytes[i + 2] as u32)
        * 0x100 + (bytes[i + 3] as u32)
}

} // verus!
