//! Views: the drawable capability, the built-in leaves and the two stacks.
use vstd::prelude::*;
use crate::geometry::{Bounds, Edge, Padding, SizingHint};
use crate::layout::{Axis, MAX_SCORE, fills, flex_score, main_of, probe, zero_probe};
use crate::raster::{RgbBuffer, buffer_size, buffer_pixels, in_rect, decoded_png};
use crate::surface::{Surface, RasterError};

verus! {

/// What every view can do: report its size for a suggestion, paint itself,
/// and carry a padding.
///
/// `F` is the font registry of the surface. A view states its size as
/// `measured`, a function of the view, the registry and the suggestion
/// alone, and `bounds` returns exactly that: a view can then be measured any
/// number of times before it is painted once. The views of this library
/// prove it; a view written elsewhere has to keep to it, since the stacks
/// rely on it.
pub trait Drawable<F>: Sized {
    /// The bounds this view reports for `suggested`.
    spec fn measured(&self, fonts: F, suggested: Bounds) -> Bounds;

    /// Whether `painted` states exactly what `draw` does to the pixels. The
    /// views of this library say so (a stack, when all its children do); a
    /// view that keeps this default promises only what every `draw` does.
    open spec fn paints_exactly(&self) -> bool {
        false
    }

    /// The pixels after the view is drawn at `(x, y)` onto `before`, the
    /// pixels of a surface of `size` whose font registry is `fonts`.
    open spec fn painted(
        &self,
        fonts: F,
        before: Map<(u32, u32), [u8; 3]>,
        size: (u32, u32),
        x: u32,
        y: u32,
        suggested: Bounds,
    ) -> Map<(u32, u32), [u8; 3]> {
        before
    }

    /// Whether `takes_padding` and `pad_spec` describe the view's padding.
    open spec fn padding_known(&self) -> bool {
        false
    }

    /// Whether the view keeps a padding that is set on it.
    open spec fn takes_padding(&self) -> bool {
        false
    }

    /// The view's padding.
    open spec fn pad_spec(&self) -> Padding {
        Padding::zero_spec()
    }

    fn bounds(&self, surface: &Surface<F>, suggested: Bounds) -> (r: Bounds)
        ensures
            r == self.measured(surface.font_set(), suggested),
    ;

    /// Paints the view with its top left corner at `(x, y)`; the surface
    /// keeps its size and its font registry.
    fn draw(&self, surface: &mut Surface<F>, x: u32, y: u32, suggested: Bounds)
        ensures
            final(surface).size() == old(surface).size(),
            final(surface).font_set() == old(surface).font_set(),
            self.paints_exactly() ==> final(surface).pixels() == self.painted(
                old(surface).font_set(),
                old(surface).pixels(),
                old(surface).size(),
                x,
                y,
                suggested,
            ),
    ;

    fn padding_data(&self) -> (r: Padding)
        ensures
            self.padding_known() ==> r == self.pad_spec(),
    ;

    /// Replaces the padding, where the view takes one.
    fn set_padding_data(&mut self, padding: Padding)
        ensures
            old(self).padding_known() ==> final(self).padding_known() && final(self).takes_padding()
                == old(self).takes_padding() && final(self).pad_spec() == (if old(self).takes_padding() {
                padding
            } else {
                old(self).pad_spec()
            }),
    ;

    /// Sets the padding of one edge and keeps the other three.
    fn padding(&mut self, edge: Edge, size: u32)
        ensures
            old(self).padding_known() ==> final(self).padding_known() && final(self).takes_padding()
                == old(self).takes_padding() && final(self).pad_spec() == (if old(self).takes_padding() {
                old(self).pad_spec().with_edge(edge, size)
            } else {
                old(self).pad_spec()
            }),
    {
        let p = self.padding_data().set_edge(edge, size);
        self.set_padding_data(p);
    }
}

#[derive(Clone, Copy, Debug, PartialEq, Eq, Structural)]
enum Direction {
    Horizontal,
    Vertical,
}

/// Fills the space it is offered along one axis and takes none across it.
#[derive(Clone, Copy, Debug)]
pub struct Spacer {
    direction: Direction,
}

impl Spacer {
    /// Whether the spacer grows horizontally.
    pub closed spec fn is_horizontal(self) -> bool {
        self.direction == Direction::Horizontal
    }

    /// Nothing under the zero hint; otherwise the suggestion along its own
    /// axis and zero across it.
    pub open spec fn spec_measure(self, s: Bounds) -> Bounds {
        if s.hint == SizingHint::ZeroSpace {
            Bounds { width: 0, height: 0, hint: SizingHint::Optimal }
        } else if self.is_horizontal() {
            Bounds { height: 0, ..s }
        } else {
            Bounds { width: 0, ..s }
        }
    }

    /// A spacer that grows horizontally.
    pub fn horizontal() -> (r: Self)
        ensures
            r.is_horizontal(),
    {
        Spacer { direction: Direction::Horizontal }
    }

    /// A spacer that grows vertically.
    pub fn vertical() -> (r: Self)
        ensures
            !r.is_horizontal(),
    {
        Spacer { direction: Direction::Vertical }
    }

    pub fn measure(&self, s: Bounds) -> (r: Bounds)
        ensures
            r == self.spec_measure(s),
    {
        if s.hint == SizingHint::ZeroSpace {
            Bounds::new(0, 0)
        } else {
            match self.direction {
                Direction::Vertical => s.width_adjusted(0),
                Direction::Horizontal => s.height_adjusted(0),
            }
        }
    }
}

/// A spacer reports what `fills` states along its own axis.
pub proof fn lemma_spacer_fills(sp: Spacer, a: Axis, b: Bounds)
    requires
        sp.is_horizontal() <==> a == Axis::Horizontal,
    ensures
        sp.spec_measure(b) == fills(b, a),
{
}

/// A spacer along the axis fills the probe and collapses to nothing: it
/// gets the highest flexibility score.
pub proof fn lemma_spacer_most_flexible(sp: Spacer, a: Axis)
    requires
        sp.is_horizontal() <==> a == Axis::Horizontal,
    ensures
        flex_score(
            main_of(sp.spec_measure(probe(SizingHint::InfiniteSpace)), a),
            main_of(sp.spec_measure(zero_probe()), a),
            main_of(sp.spec_measure(probe(SizingHint::Optimal)), a),
        ) == MAX_SCORE,
{
}

impl<F> Drawable<F> for Spacer {
    open spec fn measured(&self, fonts: F, suggested: Bounds) -> Bounds {
        self.spec_measure(suggested)
    }

    open spec fn paints_exactly(&self) -> bool {
        true
    }

    open spec fn padding_known(&self) -> bool {
        true
    }

    fn bounds(&self, surface: &Surface<F>, suggested: Bounds) -> (r: Bounds) {
        self.measure(suggested)
    }

    fn draw(&self, surface: &mut Surface<F>, x: u32, y: u32, suggested: Bounds) {
    }

    fn padding_data(&self) -> Padding {
        Padding::zero()
    }

    fn set_padding_data(&mut self, padding: Padding) {
    }
}

/// A decoded picture, painted pixel for pixel at its natural size.
pub struct Image {
    image_data: RgbBuffer,
    padding: Padding,
}

/// Whether surface point `k` is covered by a `size` picture placed at
/// `(ox, oy)`.
pub open spec fn covers(k: (u32, u32), ox: int, oy: int, size: (u32, u32)) -> bool {
    ox <= k.0 < ox + size.0 && oy <= k.1 < oy + size.1
}

impl Image {
    /// Width and height of the picture.
    pub closed spec fn size(self) -> (u32, u32) {
        buffer_size(self.image_data)
    }

    /// The picture's pixels, keyed by `(x, y)`.
    pub closed spec fn pixels(self) -> Map<(u32, u32), [u8; 3]> {
        buffer_pixels(self.image_data)
    }

    pub closed spec fn pad(self) -> Padding {
        self.padding
    }

    /// The picture's own size plus its padding, whatever was suggested.
    pub open spec fn spec_measure(self) -> Bounds {
        Bounds { width: self.size().0, height: self.size().1, hint: SizingHint::Optimal }.plus(
            self.pad().total(),
        )
    }

    /// Reads a picture from PNG bytes.
    pub fn from_data(data: &[u8]) -> (r: Result<Image, RasterError>)
        ensures
            r is Ok <==> decoded_png(data@) is Some,
            r matches Ok(img) ==> img.pad() == Padding::zero_spec() && decoded_png(data@) == Some(
                (img.size(), img.pixels()),
            ),
            r matches Err(e) ==> e == RasterError::Decoding,
    {
        match RgbBuffer::decode_png(data) {
            Ok(b) => Ok(Image { image_data: b, padding: Padding::zero() }),
            Err(_) => Err(RasterError::Decoding),
        }
    }

    pub fn width(&self) -> (r: u32)
        ensures
            r == self.size().0,
    {
        self.image_data.width()
    }

    pub fn height(&self) -> (r: u32)
        ensures
            r == self.size().1,
    {
        self.image_data.height()
    }

    pub fn measure(&self) -> (r: Bounds)
        ensures
            r == self.spec_measure(),
    {
        Bounds::new(self.image_data.width(), self.image_data.height()).saturating_plus(
            &self.padding.bounds(),
        )
    }

    /// `before`, the pixels of a surface of `size`, with the picture copied
    /// onto it: its top left corner at `(x, y)` moved in by the left and top
    /// padding, and what falls off the surface left out.
    pub open spec fn blit(self, before: Map<(u32, u32), [u8; 3]>, size: (u32, u32), x: u32, y: u32) -> Map<
        (u32, u32),
        [u8; 3],
    > {
        Map::new(
            |k: (u32, u32)| before.contains_key(k),
            |k: (u32, u32)|
                if in_rect(k, size) && covers(k, x + self.pad().left, y + self.pad().top, self.size()) {
                    self.pixels()[((k.0 - x - self.pad().left) as u32, (k.1 - y - self.pad().top) as u32)]
                } else {
                    before[k]
                },
        )
    }

    /// Copies every pixel of the picture to the surface, as `blit` states.
    pub fn paint<F>(&self, surface: &mut Surface<F>, x: u32, y: u32)
        ensures
            final(surface).size() == old(surface).size(),
            final(surface).font_set() == old(surface).font_set(),
            final(surface).pixels() == self.blit(old(surface).pixels(), old(surface).size(), x, y),
    {
        let ox: u64 = x as u64 + self.padding.left as u64;
        let oy: u64 = y as u64 + self.padding.top as u64;
        let w = self.image_data.width();
        let h = self.image_data.height();
        let sw = surface.bounds().width;
        let sh = surface.bounds().height;
        let ghost start = *surface;
        let mut row: u32 = 0;
        while row < h
            invariant
                row <= h,
                w == self.size().0,
                h == self.size().1,
                sw == start.size().0,
                sh == start.size().1,
                ox == x + self.pad().left,
                oy == y + self.pad().top,
                surface.size() == start.size(),
                surface.font_set() == start.font_set(),
                forall|k: (u32, u32)| #[trigger] start.pixels().contains_key(k) <==> in_rect(k, start.size()),
                forall|k: (u32, u32)| #[trigger] surface.pixels().contains_key(k) <==> in_rect(k, start.size()),
                forall|k: (u32, u32)|
                    in_rect(k, start.size()) ==> #[trigger] surface.pixels()[k] == (if covers(
                        k,
                        ox as int,
                        oy as int,
                        (w, row),
                    ) {
                        self.pixels()[((k.0 - ox) as u32, (k.1 - oy) as u32)]
                    } else {
                        start.pixels()[k]
                    }),
            decreases h - row,
        {
            let mut col: u32 = 0;
            while col < w
                invariant
                    row < h,
                    col <= w,
                    w == self.size().0,
                    h == self.size().1,
                    sw == start.size().0,
                    sh == start.size().1,
                    ox == x + self.pad().left,
                    oy == y + self.pad().top,
                    surface.size() == start.size(),
                    surface.font_set() == start.font_set(),
                    forall|k: (u32, u32)| #[trigger] start.pixels().contains_key(k) <==> in_rect(k, start.size()),
                    forall|k: (u32, u32)| #[trigger] surface.pixels().contains_key(k) <==> in_rect(k, start.size()),
                    forall|k: (u32, u32)|
                        in_rect(k, start.size()) ==> #[trigger] surface.pixels()[k] == (if covers(
                            k,
                            ox as int,
                            oy as int,
                            (w, row),
                        ) || (k.1 == oy + row && ox <= k.0 < ox + col) {
                            self.pixels()[((k.0 - ox) as u32, (k.1 - oy) as u32)]
                        } else {
                            start.pixels()[k]
                        }),
                decreases w - col,
            {
                let px: u64 = ox + col as u64;
                let py: u64 = oy + row as u64;
                if px < sw as u64 && py < sh as u64 {
                    let c = self.image_data.pixel(col, row);
                    surface.put_pixel(px as u32, py as u32, c);
                }
                col = col + 1;
            }
            row = row + 1;
        }
        assert(surface.pixels() =~= self.blit(start.pixels(), start.size(), x, y));
    }
}

impl<F> Drawable<F> for Image {
    open spec fn measured(&self, fonts: F, suggested: Bounds) -> Bounds {
        self.spec_measure()
    }

    open spec fn paints_exactly(&self) -> bool {
        true
    }

    open spec fn painted(
        &self,
        fonts: F,
        before: Map<(u32, u32), [u8; 3]>,
        size: (u32, u32),
        x: u32,
        y: u32,
        suggested: Bounds,
    ) -> Map<(u32, u32), [u8; 3]> {
        self.blit(before, size, x, y)
    }

    open spec fn padding_known(&self) -> bool {
        true
    }

    open spec fn takes_padding(&self) -> bool {
        true
    }

    open spec fn pad_spec(&self) -> Padding {
        self.pad()
    }

    fn bounds(&self, surface: &Surface<F>, suggested: Bounds) -> (r: Bounds) {
        self.measure()
    }

    fn draw(&self, surface: &mut Surface<F>, x: u32, y: u32, suggested: Bounds) {
        self.paint(surface, x, y)
    }

    fn padding_data(&self) -> Padding {
        self.padding
    }

    fn set_padding_data(&mut self, padding: Padding) {
        self.padding = padding;
    }
}

} // verus!
