//! The pixel canvas: a fixed-size RGBA grid addressable by integer
//! coordinates, stored in an `image::ImageBuffer` so that the
//! surrounding pipeline can encode it to a file.
//!
//! The buffer itself is outside code; its contents are named by
//! uninterpreted spec functions, and the few methods the rasterizer
//! calls are wrapped in trusted items whose contracts state what the
//! buffer's source shows: a row-major grid of width * height pixels.

use vstd::prelude::*;
use crate::color::Color;

verus! {

/// An RGBA pixel grid of the `image` crate, held opaquely: declaring
/// `image::ImageBuffer` itself is impossible here, since its `P:
/// Pixel` bound names an outside trait the verifier cannot see.
#[verifier::external_body]
pub struct PixelBuffer {
    inner: image::ImageBuffer<image::Rgba<u8>, Vec<u8>>,
}

/// The pixels an RGBA image buffer holds, row-major: the pixel at
/// (x, y) is element y * width + x.
pub uninterp spec fn buf_pixels(b: PixelBuffer) -> Seq<(u8, u8, u8, u8)>;

/// The width an RGBA image buffer was constructed with.
pub uninterp spec fn buf_width(b: PixelBuffer) -> int;

/// The height an RGBA image buffer was constructed with.
pub uninterp spec fn buf_height(b: PixelBuffer) -> int;

/// Relies on image::ImageBuffer::from_pixel: a width * height buffer
/// with every pixel set to the given value. The dimension bound keeps
/// the 4 * width * height byte allocation within address space.
#[verifier::external_body]
fn buf_new(width: u32, height: u32, fill: (u8, u8, u8, u8)) -> (b: PixelBuffer)
    requires
        width <= 16384,
        height <= 16384,
    ensures
        buf_width(b) == width,
        buf_height(b) == height,
        buf_pixels(b).len() == width * height,
        forall|i: int| 0 <= i < width * height ==> buf_pixels(b)[i] == fill,
{
    PixelBuffer {
        inner: image::ImageBuffer::from_pixel(
            width,
            height,
            image::Rgba([fill.0, fill.1, fill.2, fill.3]),
        ),
    }
}

/// Relies on image::ImageBuffer::get_pixel: the pixel at (x, y),
/// which the buffer stores row-major at index y * width + x; panics
/// only outside the width * height bounds.
#[verifier::external_body]
fn buf_get(b: &PixelBuffer, x: u32, y: u32) -> (p: (
    u8,
    u8,
    u8,
    u8,
))
    requires
        x < buf_width(*b),
        y < buf_height(*b),
    ensures
        p == buf_pixels(*b)[y * buf_width(*b) + x],
{
    let q = b.inner.get_pixel(x, y);
    (q.0[0], q.0[1], q.0[2], q.0[3])
}

/// Relies on image::ImageBuffer::put_pixel: overwrites the pixel the
/// buffer stores row-major at index y * width + x and nothing else;
/// panics only outside the width * height bounds.
#[verifier::external_body]
fn buf_put(b: &mut PixelBuffer, x: u32, y: u32, p: (
    u8,
    u8,
    u8,
    u8,
))
    requires
        x < buf_width(*old(b)),
        y < buf_height(*old(b)),
    ensures
        buf_width(*final(b)) == buf_width(*old(b)),
        buf_height(*final(b)) == buf_height(*old(b)),
        buf_pixels(*final(b)) == buf_pixels(*old(b)).update(
            y * buf_width(*old(b)) + x,
            p,
        ),
{
    b.inner.put_pixel(x, y, image::Rgba([p.0, p.1, p.2, p.3]))
}

/// A drawing target: an RGBA pixel grid with fixed dimensions and the
/// file name the surrounding pipeline will encode it under.
pub struct Canvas {
    pub buf: PixelBuffer,
    pub width: u32,
    pub height: u32,
    pub name: String,
}

impl Canvas {
    /// The stored dimensions agree with the buffer's own, and the
    /// buffer holds exactly one pixel per grid cell.
    pub open spec fn wf(self) -> bool {
        buf_width(self.buf) == self.width && buf_height(self.buf) == self.height
            && buf_pixels(self.buf).len() == self.width * self.height && self.width <= 16384
            && self.height <= 16384
    }

    /// The pixel grid, row-major.
    pub open spec fn pixels(self) -> Seq<(u8, u8, u8, u8)> {
        buf_pixels(self.buf)
    }

    /// The row-major index of the pixel at (x, y).
    pub open spec fn idx(self, x: int, y: int) -> int {
        y * self.width + x
    }

    /// A fresh canvas, every pixel fully transparent black.
    pub fn new(width: u32, height: u32, name: String) -> (c: Canvas)
        requires
            width <= 16384,
            height <= 16384,
        ensures
            c.wf(),
            c.width == width,
            c.height == height,
            c.name == name,
            c.pixels().len() == width * height,
            forall|i: int| 0 <= i < width * height ==> c.pixels()[i] == (0u8, 0u8, 0u8, 0u8),
    {
        let buf = buf_new(width, height, (0, 0, 0, 0));
        Canvas { buf, width, height, name }
    }

    /// The color of the pixel at (x, y).
    pub fn get_pixel(&self, x: u32, y: u32) -> (p: Color)
        requires
            self.wf(),
            x < self.width,
            y < self.height,
        ensures
            p.spec_tuple() == self.pixels()[self.idx(x as int, y as int)],
    {
        let t = buf_get(&self.buf, x, y);
        Color::from_tuple(t)
    }

    /// Overwrite the pixel at (x, y), leaving every other pixel, the
    /// dimensions and the name unchanged.
    pub fn set_pixel(&mut self, x: u32, y: u32, color: Color)
        requires
            old(self).wf(),
            x < old(self).width,
            y < old(self).height,
        ensures
            final(self).wf(),
            final(self).width == old(self).width,
            final(self).height == old(self).height,
            final(self).name == old(self).name,
            final(self).pixels() == old(self).pixels().update(
                old(self).idx(x as int, y as int),
                color.spec_tuple(),
            ),
    {
        let t = color.as_tuple();
        proof {
            let w = old(self).width as int;
            let h = old(self).height as int;
            assert(0 <= (y as int) * w + (x as int) < w * h) by (nonlinear_arith)
                requires 0 <= x < w && 0 <= y < h;
        }
        buf_put(&mut self.buf, x, y, t);
    }
}

} // verus!
