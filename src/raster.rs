//! An RGB pixel buffer, held in the `image` crate's `RgbImage`, and the
//! decode and encode calls made on it.
use vstd::prelude::*;

verus! {

/// An RGB image with its origin at the top left.
#[verifier::external_body]
pub struct RgbBuffer {
    img: image::RgbImage,
}

#[verifier::external_type_specification]
#[verifier::external_body]
pub struct ExImageError(image::ImageError);

/// The raster formats a buffer can be encoded to.
#[derive(Clone, Copy, Debug, PartialEq, Eq, Structural)]
pub enum RasterFormat {
    Png,
    Jpeg,
}

/// Width and height of a buffer.
pub uninterp spec fn buffer_size(b: RgbBuffer) -> (u32, u32);

/// The pixels of a buffer, keyed by `(x, y)`.
pub uninterp spec fn buffer_pixels(b: RgbBuffer) -> Map<(u32, u32), [u8; 3]>;

/// The bytes that the `image` crate writes for a picture in a format, or
/// `None` where it reports an error.
pub uninterp spec fn encoded_raster(
    size: (u32, u32),
    pixels: Map<(u32, u32), [u8; 3]>,
    format: RasterFormat,
) -> Option<Seq<u8>>;

/// The size and pixels the `image` crate decodes from PNG bytes, or `None`
/// where it reports an error.
pub uninterp spec fn decoded_png(bytes: Seq<u8>) -> Option<((u32, u32), Map<(u32, u32), [u8; 3]>)>;

/// Whether `k` lies inside a `size.0` by `size.1` rectangle at the origin.
pub open spec fn in_rect(k: (u32, u32), size: (u32, u32)) -> bool {
    k.0 < size.0 && k.1 < size.1
}

/// A buffer holds exactly one pixel for every point of its rectangle.
pub open spec fn buffer_wf(b: RgbBuffer) -> bool {
    forall|k: (u32, u32)| #[trigger] buffer_pixels(b).contains_key(k) <==> in_rect(k, buffer_size(b))
}

/// Whether the byte count of a buffer of this size fits in `usize`, both
/// for one row and for the whole picture.
pub open spec fn allocatable(width: u32, height: u32) -> bool {
    3 * width <= usize::MAX && 3 * width * height <= usize::MAX
}

impl RgbBuffer {
    /// Relies on `ImageBuffer::new`: a buffer of the given size whose pixels
    /// are all zero; it panics where the byte count overflows `usize`.
    #[verifier::external_body]
    pub(crate) fn black(width: u32, height: u32) -> (r: RgbBuffer)
        requires
            allocatable(width, height),
        ensures
            buffer_wf(r),
            buffer_size(r) == (width, height),
            forall|k: (u32, u32)| in_rect(k, (width, height)) ==> #[trigger] buffer_pixels(r)[k] == [0u8, 0u8, 0u8],
    {
        RgbBuffer { img: image::RgbImage::new(width, height) }
    }

    /// Relies on `ImageBuffer::width`.
    #[verifier::external_body]
    pub(crate) fn width(&self) -> (r: u32)
        ensures
            r == buffer_size(*self).0,
    {
        self.img.width()
    }

    /// Relies on `ImageBuffer::height`.
    #[verifier::external_body]
    pub(crate) fn height(&self) -> (r: u32)
        ensures
            r == buffer_size(*self).1,
    {
        self.img.height()
    }

    /// Relies on `ImageBuffer::get_pixel`, which panics outside the image.
    #[verifier::external_body]
    pub(crate) fn pixel(&self, x: u32, y: u32) -> (r: [u8; 3])
        requires
            in_rect((x, y), buffer_size(*self)),
        ensures
            r == buffer_pixels(*self)[(x, y)],
    {
        self.img.get_pixel(x, y).0
    }

    /// Relies on `ImageBuffer::put_pixel`, which replaces one pixel and
    /// panics outside the image.
    #[verifier::external_body]
    pub(crate) fn put_pixel(&mut self, x: u32, y: u32, color: [u8; 3])
        requires
            in_rect((x, y), buffer_size(*old(self))),
        ensures
            buffer_size(*final(self)) == buffer_size(*old(self)),
            buffer_pixels(*final(self)) == buffer_pixels(*old(self)).insert((x, y), color),
        no_unwind
    {
        self.img.put_pixel(x, y, image::Rgb(color))
    }

    /// Relies on `image::load_from_memory_with_format` with the PNG format,
    /// then `DynamicImage::into_rgb8`: the outcome depends on the bytes alone.
    #[verifier::external_body]
    pub(crate) fn decode_png(bytes: &[u8]) -> (r: Result<RgbBuffer, image::ImageError>)
        ensures
            r is Ok <==> decoded_png(bytes@) is Some,
            r matches Ok(b) ==> buffer_wf(b) && decoded_png(bytes@) == Some((buffer_size(b), buffer_pixels(b))),
    {
        match image::load_from_memory_with_format(bytes, image::ImageFormat::Png) {
            Ok(d) => Ok(RgbBuffer { img: d.into_rgb8() }),
            Err(e) => Err(e),
        }
    }

    /// Relies on `ImageBuffer::write_to`, writing into an in-memory cursor:
    /// the outcome depends on the size, the pixels and the format alone.
    #[verifier::external_body]
    pub(crate) fn encode(&self, format: RasterFormat) -> (r: Result<Vec<u8>, image::ImageError>)
        ensures
            r is Ok <==> encoded_raster(buffer_size(*self), buffer_pixels(*self), format) is Some,
            r matches Ok(v) ==> encoded_raster(buffer_size(*self), buffer_pixels(*self), format) == Some(v@),
    {
        let f = match format {
            RasterFormat::Png => image::ImageFormat::Png,
            RasterFormat::Jpeg => image::ImageFormat::Jpeg,
        };
        let mut out = std::io::Cursor::new(Vec::new());
        match self.img.write_to(&mut out, f) {
            Ok(()) => Ok(out.into_inner()),
            Err(e) => Err(e),
        }
    }
}

} // verus!
