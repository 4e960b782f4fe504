use vstd::prelude::*;
use nannou::image::ImageBuffer;
use nannou::image::Rgba;
use crate::pixel::Pixel;

verus! {

/// The pixel store behind a canvas: an 8-bit RGBA `ImageBuffer` of the image
/// crate that nannou re-exports. Verus sees nothing inside it; what it holds is
/// named by `raster_cells`, `raster_width` and `raster_height`.
#[verifier::external_body]
pub struct Raster {
    buf: ImageBuffer<Rgba<u8>, Vec<u8>>,
}

/// The pixels of the buffer in row-major order: the pixel at `(x, y)` stands at
/// index `y * width + x`.
pub uninterp spec fn raster_cells(raster: Raster) -> Seq<Pixel>;

/// The width the buffer was made with.
pub uninterp spec fn raster_width(raster: Raster) -> nat;

/// The height the buffer was made with.
pub uninterp spec fn raster_height(raster: Raster) -> nat;

/// Calls `ImageBuffer::new`. Trusted: the buffer has the dimensions asked for
/// and `width * height` pixels, every channel of every pixel zero. The
/// precondition keeps the byte length within what a vector can hold, outside
/// of which `ImageBuffer::new` panics.
#[verifier::external_body]
pub(crate) fn raster_new(width: u32, height: u32) -> (raster: Raster)
    requires
        4 * width * height <= isize::MAX,
    ensures
        raster_width(raster) == width,
        raster_height(raster) == height,
        raster_cells(raster).len() == width * height,
        forall|i: int|
            0 <= i < width * height ==> #[trigger] raster_cells(raster)[i] == (Pixel {
                r: 0,
                g: 0,
                b: 0,
                a: 0,
            }),
{
    Raster { buf: ImageBuffer::new(width, height) }
}

/// Calls `ImageBuffer::width`. Trusted: it is the width the buffer was made
/// with.
#[verifier::external_body]
pub(crate) fn raster_get_width(raster: &Raster) -> (width: u32)
    ensures
        width == raster_width(*raster),
{
    raster.buf.width()
}

/// Calls `ImageBuffer::height`. Trusted: it is the height the buffer was made
/// with.
#[verifier::external_body]
pub(crate) fn raster_get_height(raster: &Raster) -> (height: u32)
    ensures
        height == raster_height(*raster),
{
    raster.buf.height()
}

/// Calls `ImageBuffer::get_pixel`, which panics outside the bounds. Trusted:
/// inside them it yields the four channels stored at row-major index
/// `y * width + x`.
#[verifier::external_body]
pub(crate) fn raster_get(raster: &Raster, x: u32, y: u32) -> (p: Pixel)
    requires
        x < raster_width(*raster),
        y < raster_height(*raster),
    ensures
        p == raster_cells(*raster)[y * raster_width(*raster) + x],
{
    let q = raster.buf.get_pixel(x, y);
    Pixel { r: q.0[0], g: q.0[1], b: q.0[2], a: q.0[3] }
}

/// Calls `ImageBuffer::put_pixel`, which panics outside the bounds. Trusted:
/// inside them it replaces the pixel at row-major index `y * width + x` and
/// leaves every other pixel and both dimensions as they were, and does not
/// unwind.
#[verifier::external_body]
pub(crate) fn raster_put(raster: &mut Raster, x: u32, y: u32, p: Pixel)
    requires
        x < raster_width(*old(raster)),
        y < raster_height(*old(raster)),
    ensures
        raster_width(*final(raster)) == raster_width(*old(raster)),
        raster_height(*final(raster)) == raster_height(*old(raster)),
        raster_cells(*final(raster)) == raster_cells(*old(raster)).update(
            y * raster_width(*old(raster)) + x,
            p,
        ),
    no_unwind
{
    raster.buf.put_pixel(x, y, Rgba([p.r, p.g, p.b, p.a]));
}

} // verus!
