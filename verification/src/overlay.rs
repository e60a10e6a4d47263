//! The coordinate-grid overlay's configuration and pure helpers: where
//! the grid lines fall, and the tiny bitmap font the labels use. The
//! pixel pushing itself is plain image I/O and lives with the caller.

use vstd::prelude::*;

verus! {

/// Configuration of the grid overlay drawn onto screenshots as a
/// visual aid for the model.
#[derive(Debug, Clone, Copy)]
pub struct GridOptions {
    /// Grid spacing in image pixels.
    pub step: u32,
    /// Label every Nth line.
    pub label_every: u32,
    /// Pixel size of the bitmap font (1 is 5x7, 2 is 10x14, and so on).
    pub font_scale: u32,
    /// Whether to write a debug copy of the annotated image to disk.
    pub save_debug: bool,
}

impl GridOptions {
    /// The stock overlay: a 50-pixel grid, every other line labelled,
    /// double-size font, no debug copy.
    pub fn defaults() -> (r: Self)
        ensures
            r.step == 50,
            r.label_every == 2,
            r.font_scale == 2,
            r.save_debug == false,
    {
        GridOptions { step: 50, label_every: 2, font_scale: 2, save_debug: false }
    }
}

/// The tick positions of one grid axis: every multiple of `step` up to
/// and including the extent. A zero step yields the origin tick alone.
pub open spec fn spec_grid_ticks(extent: int, step: int) -> Seq<u32> {
    if step <= 0 {
        seq![0u32]
    } else {
        Seq::new((extent / step + 1) as nat, |i: int| (i * step) as u32)
    }
}

/// Where the grid lines of one axis fall.
pub fn grid_ticks(extent: u32, step: u32) -> (r: Vec<u32>)
    ensures
        r@ == spec_grid_ticks(extent as int, step as int),
{
    let mut out: Vec<u32> = Vec::new();
    if step == 0 {
        out.push(0);
        proof {
            assert(out@ =~= seq![0u32]);
        }
        return out;
    }
    let count = extent / step;
    let mut i: u64 = 0;
    while i <= count as u64
        invariant
            i <= count as int + 1,
            count == extent as int / step as int,
            step >= 1,
            out@.len() == i,
            forall|k: int| 0 <= k < i ==> out@[k] == (k * step as int) as u32,
        decreases count + 1 - i,
    {
        proof {
            vstd::arithmetic::div_mod::lemma_fundamental_div_mod(extent as int, step as int);
            assert((i as int) * (step as int) <= (extent as int / step as int) * (step as int)
                <= extent as int) by (nonlinear_arith)
                requires
                    0 <= i as int <= extent as int / step as int,
                    step as int >= 1,
                    (extent as int / step as int) * (step as int) + (extent as int % step as int)
                        == extent as int,
                    extent as int % step as int >= 0,
            ;
        }
        out.push((i * step as u64) as u32);
        i += 1;
    }
    proof {
        assert(out@ =~= spec_grid_ticks(extent as int, step as int));
    }
    out
}

/// The 5x7 bitmap rows of one label character (digits, `x`, `y` and
/// `=`; each row's five low bits, leftmost pixel highest), or nothing
/// for a character the font lacks.
pub fn glyph_rows(ch: char) -> (r: Option<[u8; 7]>)
    ensures
        (r is Some) == (ch == '0' || ch == '1' || ch == '2' || ch == '3' || ch == '4' || ch == '5'
            || ch == '6' || ch == '7' || ch == '8' || ch == '9' || ch == 'x' || ch == 'y' || ch
            == '='),
{
    match ch {
        '0' => Some([0b01110, 0b10001, 0b10011, 0b10101, 0b11001, 0b10001, 0b01110]),
        '1' => Some([0b00100, 0b01100, 0b00100, 0b00100, 0b00100, 0b00100, 0b01110]),
        '2' => Some([0b01110, 0b10001, 0b00001, 0b00010, 0b00100, 0b01000, 0b11111]),
        '3' => Some([0b11110, 0b00001, 0b00001, 0b01110, 0b00001, 0b00001, 0b11110]),
        '4' => Some([0b00010, 0b00110, 0b01010, 0b10010, 0b11111, 0b00010, 0b00010]),
        '5' => Some([0b11111, 0b10000, 0b11110, 0b00001, 0b00001, 0b10001, 0b01110]),
        '6' => Some([0b00110, 0b01000, 0b10000, 0b11110, 0b10001, 0b10001, 0b01110]),
        '7' => Some([0b11111, 0b00001, 0b00010, 0b00100, 0b01000, 0b01000, 0b01000]),
        '8' => Some([0b01110, 0b10001, 0b10001, 0b01110, 0b10001, 0b10001, 0b01110]),
        '9' => Some([0b01110, 0b10001, 0b10001, 0b01111, 0b00001, 0b00010, 0b01100]),
        'x' => Some([0b00000, 0b10001, 0b01010, 0b00100, 0b01010, 0b10001, 0b00000]),
        'y' => Some([0b00000, 0b10001, 0b10001, 0b01111, 0b00001, 0b00010, 0b01100]),
        '=' => Some([0b00000, 0b00000, 0b11111, 0b00000, 0b11111, 0b00000, 0b00000]),
        _ => None,
    }
}

} // verus!
