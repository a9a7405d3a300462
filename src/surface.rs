//! The surface that views measure against and paint onto: a pixel buffer and
//! the font registry of the run.
use vstd::prelude::*;
use crate::geometry::{Bounds, SizingHint};
use crate::raster::{
    RgbBuffer, RasterFormat, buffer_size, buffer_pixels, buffer_wf, in_rect, allocatable,
    encoded_raster,
};

verus! {

pub const WHITE: [u8; 3] = [255u8, 255u8, 255u8];

pub const BLACK: [u8; 3] = [0u8, 0u8, 0u8];

/// The fonts that text can be set in.
#[derive(Clone, Copy, Debug, PartialEq, Eq, Structural)]
pub enum Font {
    Roboto,
    PlayfairDisplay,
}

/// Why pixel data could not be read or written.
#[derive(Clone, Copy, Debug, PartialEq, Eq, Structural)]
pub enum RasterError {
    /// The bytes are not an image of the expected format.
    Decoding,
    /// The pixels could not be encoded.
    Encoding,
}

/// A fixed-size RGB canvas, white when created, together with the font
/// registry `F` that text measurement reads.
pub struct Surface<F> {
    fonts: F,
    img: RgbBuffer,
}

impl<F> Surface<F> {
    #[verifier::type_invariant]
    spec fn inv(self) -> bool {
        buffer_wf(self.img)
    }

    /// The font registry.
    pub closed spec fn font_set(self) -> F {
        self.fonts
    }

    /// Width and height in pixels.
    pub closed spec fn size(self) -> (u32, u32) {
        buffer_size(self.img)
    }

    /// The colour of every pixel, keyed by `(x, y)`.
    pub closed spec fn pixels(self) -> Map<(u32, u32), [u8; 3]> {
        buffer_pixels(self.img)
    }

    /// A white surface of the given size.
    pub fn new(width: u32, height: u32, fonts: F) -> (r: Surface<F>)
        requires
            allocatable(width, height),
        ensures
            r.size() == (width, height),
            r.font_set() == fonts,
            forall|k: (u32, u32)| #[trigger] r.pixels().contains_key(k) <==> in_rect(k, (width, height)),
            forall|k: (u32, u32)| in_rect(k, (width, height)) ==> #[trigger] r.pixels()[k] == WHITE,
    {
        let mut img = RgbBuffer::black(width, height);
        let mut y: u32 = 0;
        while y < height
            invariant
                buffer_wf(img),
                buffer_size(img) == (width, height),
                y <= height,
                forall|k: (u32, u32)| in_rect(k, (width, height)) ==> #[trigger] buffer_pixels(img)[k]
                    == (if k.1 < y { WHITE } else { BLACK }),
            decreases height - y,
        {
            let mut x: u32 = 0;
            while x < width
                invariant
                    buffer_wf(img),
                    buffer_size(img) == (width, height),
                    y < height,
                    x <= width,
                    forall|k: (u32, u32)| in_rect(k, (width, height)) ==> #[trigger] buffer_pixels(img)[k]
                        == (if k.1 < y || (k.1 == y && k.0 < x) { WHITE } else { BLACK }),
                decreases width - x,
            {
                img.put_pixel(x, y, WHITE);
                x = x + 1;
            }
            y = y + 1;
        }
        Surface { fonts, img }
    }

    /// The surface's size under the optimal hint. Every point of the surface,
    /// and nothing else, has a pixel.
    pub fn bounds(&self) -> (r: Bounds)
        ensures
            r == (Bounds { width: self.size().0, height: self.size().1, hint: SizingHint::Optimal }),
            forall|k: (u32, u32)| #[trigger] self.pixels().contains_key(k) <==> in_rect(k, self.size()),
    {
        proof {
            use_type_invariant(self);
        }
        Bounds::new(self.img.width(), self.img.height())
    }

    /// The font registry.
    pub fn fonts(&self) -> (r: &F)
        ensures
            *r == self.font_set(),
    {
        &self.fonts
    }

    /// The colour at `(x, y)`, if that point lies on the surface.
    pub fn pixel(&self, x: u32, y: u32) -> (r: Option<[u8; 3]>)
        ensures
            r == (if in_rect((x, y), self.size()) { Some(self.pixels()[(x, y)]) } else { None }),
    {
        if x < self.img.width() && y < self.img.height() {
            Some(self.img.pixel(x, y))
        } else {
            None
        }
    }

    /// Paints one pixel; a point off the surface is left out.
    pub fn put_pixel(&mut self, x: u32, y: u32, color: [u8; 3])
        ensures
            final(self).size() == old(self).size(),
            final(self).font_set() == old(self).font_set(),
            final(self).pixels() == (if in_rect((x, y), old(self).size()) {
                old(self).pixels().insert((x, y), color)
            } else {
                old(self).pixels()
            }),
    {
        proof {
            use_type_invariant(&*self);
        }
        if x < self.img.width() && y < self.img.height() {
            self.img.put_pixel(x, y, color);
            proof {
                assert(buffer_pixels(self.img).dom() =~= buffer_pixels(old(self).img).dom());
            }
        }
    }

    /// The surface encoded in a raster format.
    pub fn encode(&self, format: RasterFormat) -> (r: Result<Vec<u8>, RasterError>)
        ensures
            r is Ok <==> encoded_raster(self.size(), self.pixels(), format) is Some,
            r matches Ok(v) ==> encoded_raster(self.size(), self.pixels(), format) == Some(v@),
            r matches Err(e) ==> e == RasterError::Encoding,
    {
        match self.img.encode(format) {
            Ok(v) => Ok(v),
            Err(_) => Err(RasterError::Encoding),
        }
    }
}

} // verus!
