//! The parts of text rendering that do not depend on the font engine: the
//! extent of a set of glyph boxes, and painting a glyph's coverage bitmap.
use vstd::prelude::*;
use crate::geometry::{Bounds, Padding, SizingHint, clamp};
use crate::raster::in_rect;
use crate::surface::{Surface, BLACK};

verus! {

/// Coverage above which a glyph pixel is painted solid black.
pub const COVERAGE_THRESHOLD: u8 = 30;

/// Where a laid-out glyph's bitmap sits, relative to the top left corner of
/// the text.
#[derive(Clone, Copy, Debug, PartialEq, Eq, Structural)]
pub struct GlyphBox {
    pub x: u32,
    pub y: u32,
    pub width: u32,
    pub height: u32,
}

/// The right-most and bottom-most edges among the first `k` glyphs.
pub open spec fn extent(glyphs: Seq<GlyphBox>, k: int) -> (u32, u32)
    decreases k,
{
    if k <= 0 {
        (0, 0)
    } else {
        let (w, h) = extent(glyphs, k - 1);
        let g = glyphs[k - 1];
        let right = clamp(g.x + g.width);
        let bottom = clamp(g.y + g.height);
        (if right > w {
            right
        } else {
            w
        }, if bottom > h {
            bottom
        } else {
            h
        })
    }
}

/// The tight box around the glyphs, plus the padding.
pub fn text_bounds(glyphs: &Vec<GlyphBox>, padding: Padding) -> (r: Bounds)
    ensures
        r == (Bounds {
            width: extent(glyphs@, glyphs@.len() as int).0,
            height: extent(glyphs@, glyphs@.len() as int).1,
            hint: SizingHint::Optimal,
        }).plus(padding.total()),
{
    let mut w: u32 = 0;
    let mut h: u32 = 0;
    let mut i: usize = 0;
    while i < glyphs.len()
        invariant
            i <= glyphs@.len(),
            (w, h) == extent(glyphs@, i as int),
        decreases glyphs@.len() - i,
    {
        let g = glyphs[i];
        let right = g.x.saturating_add(g.width);
        let bottom = g.y.saturating_add(g.height);
        if right > w {
            w = right;
        }
        if bottom > h {
            h = bottom;
        }
        i = i + 1;
    }
    Bounds::new(w, h).saturating_plus(&padding.bounds())
}

/// Whether surface point `k` is inked by a glyph whose text is placed at
/// `(ox, oy)`: it lies on the glyph's bitmap, whose row-major coverage is
/// `cov`, and its coverage exceeds the threshold.
pub open spec fn inked(k: (u32, u32), ox: int, oy: int, g: GlyphBox, cov: Seq<u8>) -> bool {
    let col = k.0 - ox - g.x;
    let row = k.1 - oy - g.y;
    &&& 0 <= col < g.width
    &&& 0 <= row < g.height
    &&& row * g.width + col < cov.len()
    &&& cov[row * g.width + col] > COVERAGE_THRESHOLD
}

/// Paints a glyph of a text drawn at `(x, y)`: each pixel of its bitmap whose
/// coverage exceeds the threshold turns black, moved in by the left and top
/// padding; the rest of the surface, and what falls off it, is untouched.
pub fn paint_glyph<F>(
    surface: &mut Surface<F>,
    x: u32,
    y: u32,
    padding: Padding,
    glyph: GlyphBox,
    coverage: &Vec<u8>,
)
    ensures
        final(surface).size() == old(surface).size(),
        final(surface).font_set() == old(surface).font_set(),
        forall|k: (u32, u32)|
            in_rect(k, old(surface).size()) ==> #[trigger] final(surface).pixels()[k] == (if inked(
                k,
                x + padding.left,
                y + padding.top,
                glyph,
                coverage@,
            ) {
                BLACK
            } else {
                old(surface).pixels()[k]
            }),
{
    let ox: u64 = x as u64 + padding.left as u64 + glyph.x as u64;
    let oy: u64 = y as u64 + padding.top as u64 + glyph.y as u64;
    let sw = surface.bounds().width;
    let sh = surface.bounds().height;
    let w = glyph.width;
    let ghost start = *surface;
    let ghost ax: int = x + padding.left;
    let ghost ay: int = y + padding.top;
    let mut row: u32 = 0;
    while row < glyph.height
        invariant
            row <= glyph.height,
            w == glyph.width,
            ox == ax + glyph.x,
            oy == ay + glyph.y,
            ax == x + padding.left,
            ay == y + padding.top,
            sw == start.size().0,
            sh == start.size().1,
            surface.size() == start.size(),
            surface.font_set() == start.font_set(),
            forall|k: (u32, u32)|
                in_rect(k, start.size()) ==> #[trigger] surface.pixels()[k] == (if inked(
                    k,
                    ax,
                    ay,
                    glyph,
                    coverage@,
                ) && k.1 - oy < row {
                    BLACK
                } else {
                    start.pixels()[k]
                }),
        decreases glyph.height - row,
    {
        let mut col: u32 = 0;
        while col < w
            invariant
                row < glyph.height,
                col <= w,
                w == glyph.width,
                ox == ax + glyph.x,
                oy == ay + glyph.y,
                ax == x + padding.left,
                ay == y + padding.top,
                sw == start.size().0,
                sh == start.size().1,
                surface.size() == start.size(),
                surface.font_set() == start.font_set(),
                forall|k: (u32, u32)|
                    in_rect(k, start.size()) ==> #[trigger] surface.pixels()[k] == (if inked(
                        k,
                        ax,
                        ay,
                        glyph,
                        coverage@,
                    ) && (k.1 - oy < row || (k.1 - oy == row && k.0 - ox < col)) {
                        BLACK
                    } else {
                        start.pixels()[k]
                    }),
            decreases w - col,
        {
            assert(row * w <= 0xffff_fffe_0000_0001u64) by (nonlinear_arith)
                requires
                    row <= 0xffff_ffffu32,
                    w <= 0xffff_ffffu32,
            ;
            let idx: u64 = row as u64 * w as u64 + col as u64;
            assert(idx == row * w + col);
            let px: u64 = ox + col as u64;
            let py: u64 = oy + row as u64;
            if idx < coverage.len() as u64 && px < sw as u64 && py < sh as u64 {
                if coverage[idx as usize] > COVERAGE_THRESHOLD {
                    surface.put_pixel(px as u32, py as u32, BLACK);
                }
            }
            col = col + 1;
        }
        row = row + 1;
    }
}

} // verus!
