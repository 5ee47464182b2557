//! Text rasters: a line of text as straight-alpha RGBA8 pixels, and the
//! integer blit that lays one glyph's coverage into the raster.

use vstd::arithmetic::div_mod::lemma_fundamental_div_mod_converse;
use vstd::prelude::*;

verus! {

/// A rasterised line: straight-alpha RGBA8, tightly cropped.
pub struct RasterText {
    pub width: u32,
    pub height: u32,
    pub rgba: Vec<u8>,
}

/// A canvas of `width × height` transparent black pixels.
pub fn blank_canvas(width: u32, height: u32) -> (r: Vec<u8>)
    requires
        width * height * 4 <= usize::MAX,
    ensures
        r@.len() == width * height * 4,
        forall|i: int| 0 <= i < r@.len() ==> #[trigger] r@[i] == 0u8,
{
    let n: usize = (width as usize) * (height as usize) * 4;
    let mut v: Vec<u8> = Vec::new();
    for i in 0..n
        invariant
            v@.len() == i,
            forall|k: int| 0 <= k < i ==> #[trigger] v@[k] == 0u8,
    {
        v.push(0);
    }
    v
}

/// Glyph pixel `(col, row)` placed at `(gx, gy)` lands on canvas pixel
/// `(x, y)`.
pub open spec fn glyph_at(gx: int, gy: int, gw: int, gh: int, x: int, y: int) -> bool {
    gx <= x < gx + gw && gy <= y < gy + gh
}

/// The larger of two bytes.
pub open spec fn max_u8(a: u8, b: u8) -> u8 {
    if a >= b {
        a
    } else {
        b
    }
}

/// Byte `i` of a canvas after laying glyph pixels in, those whose glyph
/// coordinates satisfy `done`: colour bytes take the colour, the alpha byte
/// keeps the larger of the old alpha and the coverage; everything else stays.
pub open spec fn blit_byte(
    old: Seq<u8>,
    width: int,
    gx: int,
    gy: int,
    gw: int,
    gh: int,
    bitmap: Seq<u8>,
    rgb: Seq<u8>,
    i: int,
    done: spec_fn(int, int) -> bool,
) -> u8 {
    let p = i / 4;
    let c = i % 4;
    let x = p % width;
    let y = p / width;
    if glyph_at(gx, gy, gw, gh, x, y) && done(y - gy, x - gx) {
        if c < 3 {
            rgb[c]
        } else {
            max_u8(old[i], bitmap[(y - gy) * gw + (x - gx)])
        }
    } else {
        old[i]
    }
}

/// A canvas index splits into pixel and channel, and the pixel into column
/// and row.
proof fn lemma_index(px: int, py: int, width: int, c: int)
    requires
        0 <= px < width,
        0 <= py,
        0 <= c < 4,
    ensures
        ((py * width + px) * 4 + c) / 4 == py * width + px,
        ((py * width + px) * 4 + c) % 4 == c,
        (py * width + px) % width == px,
        (py * width + px) / width == py,
{
    lemma_fundamental_div_mod_converse((py * width + px) * 4 + c, 4, py * width + px, c);
    lemma_fundamental_div_mod_converse(py * width + px, width, py, px);
}

/// Lay one glyph's coverage into the canvas at `(gx, gy)`: every glyph pixel
/// that lands inside the canvas takes the colour `rgb`, and its alpha becomes
/// the larger of the old alpha and the glyph's coverage there; glyph pixels
/// outside the canvas are dropped.
pub fn blit_glyph(
    rgba: &mut Vec<u8>,
    width: u32,
    height: u32,
    gx: i64,
    gy: i64,
    gw: usize,
    gh: usize,
    bitmap: &[u8],
    rgb: [u8; 3],
)
    requires
        old(rgba)@.len() == width * height * 4,
        bitmap@.len() == gw * gh,
        gx + gw <= i64::MAX,
        gy + gh <= i64::MAX,
        gw <= i64::MAX,
        gh <= i64::MAX,
    ensures
        final(rgba)@.len() == old(rgba)@.len(),
        forall|i: int|
            0 <= i < old(rgba)@.len() ==> #[trigger] final(rgba)@[i] == blit_byte(
                old(rgba)@,
                width as int,
                gx as int,
                gy as int,
                gw as int,
                gh as int,
                bitmap@,
                rgb@,
                i,
                |r: int, c: int| true,
            ),
{
    let ghost o = rgba@;
    let ghost w = width as int;
    let mut row: usize = 0;
    while row < gh
        invariant
            rgba@.len() == o.len(),
            o.len() == width * height * 4,
            bitmap@.len() == gw * gh,
            gx + gw <= i64::MAX,
            gy + gh <= i64::MAX,
            gw <= i64::MAX,
            gh <= i64::MAX,
            row <= gh,
            w == width as int,
            forall|i: int|
                0 <= i < o.len() ==> #[trigger] rgba@[i] == blit_byte(
                    o,
                    w,
                    gx as int,
                    gy as int,
                    gw as int,
                    gh as int,
                    bitmap@,
                    rgb@,
                    i,
                    |r: int, c: int| r < row,
                ),
        decreases gh - row,
    {
        let mut col: usize = 0;
        while col < gw
            invariant
                rgba@.len() == o.len(),
                o.len() == width * height * 4,
                bitmap@.len() == gw * gh,
                gx + gw <= i64::MAX,
                gy + gh <= i64::MAX,
                gw <= i64::MAX,
                gh <= i64::MAX,
                row < gh,
                col <= gw,
                w == width as int,
                forall|i: int|
                    0 <= i < o.len() ==> #[trigger] rgba@[i] == blit_byte(
                        o,
                        w,
                        gx as int,
                        gy as int,
                        gw as int,
                        gh as int,
                        bitmap@,
                        rgb@,
                        i,
                        |r: int, c: int| r < row || (r == row && c < col),
                    ),
            decreases gw - col,
        {
            let px: i64 = gx + col as i64;
            let py: i64 = gy + row as i64;
            let ghost pre = rgba@;
            if px >= 0 && py >= 0 && px < width as i64 && py < height as i64 {
                let total = rgba.len();
                proof {
                    assert(total == width * height * 4);
                    assert(py * width + px < width * height) by (nonlinear_arith)
                        requires
                            0 <= px < width,
                            0 <= py < height,
                    ;
                    assert((py * width + px) * 4 < total) by (nonlinear_arith)
                        requires
                            py * width + px < width * height,
                            total == width * height * 4,
                    ;
                    assert(py * width <= py * width + px);
                    assert(0 <= py * width) by (nonlinear_arith)
                        requires
                            0 <= py,
                            0 <= width,
                    ;
                    assert(bitmap@.len() == gw * gh);
                    assert(row * gw + col < gw * gh) by (nonlinear_arith)
                        requires
                            row < gh,
                            col < gw,
                    ;
                }
                let pixel: usize = (py as usize) * (width as usize) + (px as usize);
                let idx: usize = pixel * 4;
                let blen = bitmap.len();
                assert(row * gw + col < blen);
                assert(0 <= row * gw) by (nonlinear_arith)
                    requires
                        0 <= row,
                        0 <= gw,
                ;
                let cov = bitmap[row * gw + col];
                let a = rgba[idx + 3];
                rgba.set(idx, rgb[0]);
                rgba.set(idx + 1, rgb[1]);
                rgba.set(idx + 2, rgb[2]);
                rgba.set(idx + 3, if a >= cov { a } else { cov });
                proof {
                    lemma_index(px as int, py as int, w, 0);
                    lemma_index(px as int, py as int, w, 1);
                    lemma_index(px as int, py as int, w, 2);
                    lemma_index(px as int, py as int, w, 3);
                    assert forall|i: int| 0 <= i < o.len() implies #[trigger] rgba@[i] == blit_byte(
                        o,
                        w,
                        gx as int,
                        gy as int,
                        gw as int,
                        gh as int,
                        bitmap@,
                        rgb@,
                        i,
                        |r: int, c: int| r < row || (r == row && c < col + 1),
                    ) by {
                        let p = i / 4;
                        let x = p % w;
                        let y = p / w;
                        if idx <= i < idx + 4 {
                            lemma_index(px as int, py as int, w, i - idx);
                            assert(i == (py * w + px) * 4 + (i - idx));
                            assert(x == px && y == py);
                            assert(y - gy == row && x - gx == col);
                        } else {
                            assert(pre[i] == rgba@[i]);
                            if glyph_at(gx as int, gy as int, gw as int, gh as int, x, y) && y - gy == row && x - gx == col {
                                assert(0 <= p) by (nonlinear_arith)
                                    requires
                                        0 <= i,
                                        p == i / 4,
                                ;
                                assert(p == y * w + x) by (nonlinear_arith)
                                    requires
                                        w > 0,
                                        x == p % w,
                                        y == p / w,
                                ;
                                assert(i == p * 4 + i % 4) by (nonlinear_arith)
                                    requires
                                        p == i / 4,
                                ;
                                assert(false);
                            }
                        }
                    }
                }
            } else {
                proof {
                    assert forall|i: int| 0 <= i < o.len() implies #[trigger] rgba@[i] == blit_byte(
                        o,
                        w,
                        gx as int,
                        gy as int,
                        gw as int,
                        gh as int,
                        bitmap@,
                        rgb@,
                        i,
                        |r: int, c: int| r < row || (r == row && c < col + 1),
                    ) by {
                        let p = i / 4;
                        let x = p % w;
                        let y = p / w;
                        if glyph_at(gx as int, gy as int, gw as int, gh as int, x, y) && y - gy == row && x - gx == col {
                            assert(0 <= i / 4) by (nonlinear_arith)
                                requires
                                    0 <= i,
                            ;
                            assert(i < width * height * 4);
                            assert(0 <= x < w && 0 <= y < height) by (nonlinear_arith)
                                requires
                                    w == width,
                                    w > 0,
                                    0 <= p,
                                    p == i / 4,
                                    i < width * height * 4,
                                    x == p % w,
                                    y == p / w,
                            ;
                            assert(false);
                        }
                    }
                }
            }
            col = col + 1;
        }
        row = row + 1;
    }
}

} // verus!
