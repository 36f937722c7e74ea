//! Raster images: a rectangle of pixels, eight bits to each colour channel.

use vstd::prelude::*;

verus! {

/// The colour of a pixel.
#[derive(Clone, Copy, Debug, PartialEq, Eq, Structural)]
pub struct Rgb {
    pub r: u8,
    pub g: u8,
    pub b: u8,
}

/// An image, held in an `RgbImage` of the `image` crate.
///
/// The verifier cannot look into that buffer, so what it holds goes by three
/// names: [`buffer_width`], [`buffer_height`] and [`buffer_pixels`]. The
/// functions below that hand the buffer's own methods on say over these
/// names what the methods do.
#[verifier::external_body]
pub struct Raster {
    buffer: image::RgbImage,
}

/// The number of columns of the buffer: what `ImageBuffer::width` returns.
pub uninterp spec fn buffer_width(raster: Raster) -> nat;

/// The number of rows of the buffer: what `ImageBuffer::height` returns.
pub uninterp spec fn buffer_height(raster: Raster) -> nat;

/// The pixels of the buffer, row after row, the top row first, each row from
/// left to right: the pixel that `ImageBuffer::get_pixel` returns for column
/// `x` of row `y` stands at place `y * width + x`.
pub uninterp spec fn buffer_pixels(raster: Raster) -> Seq<Rgb>;

/// The colour that a new image is filled with.
pub open spec fn black() -> Rgb {
    Rgb { r: 0, g: 0, b: 0 }
}

/// A new buffer.
///
/// Calls `ImageBuffer::new` of the `image` crate, which makes a buffer of
/// `width` by `height` pixels with every channel zero. It panics where three
/// times the number of pixels overflows `usize`, and the vector it allocates
/// cannot hold more than `isize::MAX` bytes; `requires` rules both out.
#[verifier::external_body]
fn buffer_new(width: u32, height: u32) -> (raster: Raster)
    requires
        3 * width * height <= isize::MAX,
    ensures
        buffer_width(raster) == width,
        buffer_height(raster) == height,
        buffer_pixels(raster) == Seq::new((width * height) as nat, |i: int| black()),
{
    Raster { buffer: image::RgbImage::new(width, height) }
}

/// The width of a buffer: calls `ImageBuffer::width`.
#[verifier::external_body]
fn buffer_columns(raster: &Raster) -> (width: u32)
    ensures
        width == buffer_width(*raster),
{
    raster.buffer.width()
}

/// The height of a buffer: calls `ImageBuffer::height`.
#[verifier::external_body]
fn buffer_rows(raster: &Raster) -> (height: u32)
    ensures
        height == buffer_height(*raster),
{
    raster.buffer.height()
}

/// The pixel in column `x` of row `y` of a buffer.
///
/// Calls `ImageBuffer::get_pixel`, which panics outside the bounds of the
/// image and otherwise returns the pixel whose channels stand from place
/// `3 (y * width + x)` on in the buffer's data.
#[verifier::external_body]
fn buffer_get(raster: &Raster, x: u32, y: u32) -> (color: Rgb)
    requires
        x < buffer_width(*raster),
        y < buffer_height(*raster),
    ensures
        color == buffer_pixels(*raster)[y * buffer_width(*raster) + x],
{
    let pixel = raster.buffer.get_pixel(x, y);
    Rgb { r: pixel.0[0], g: pixel.0[1], b: pixel.0[2] }
}

/// Gives the pixel in column `x` of row `y` of a buffer a colour.
///
/// Calls `ImageBuffer::put_pixel`, which panics outside the bounds of the
/// image and otherwise overwrites that pixel and no other.
#[verifier::external_body]
fn buffer_put(raster: &mut Raster, x: u32, y: u32, color: Rgb)
    requires
        x < buffer_width(*old(raster)),
        y < buffer_height(*old(raster)),
    ensures
        buffer_width(*final(raster)) == buffer_width(*old(raster)),
        buffer_height(*final(raster)) == buffer_height(*old(raster)),
        buffer_pixels(*final(raster)) == buffer_pixels(*old(raster)).update(
            y * buffer_width(*old(raster)) + x,
            color,
        ),
{
    raster.buffer.put_pixel(x, y, image::Rgb([color.r, color.g, color.b]));
}

impl Raster {
    /// The width of the image, in pixels.
    pub open spec fn columns(self) -> nat {
        buffer_width(self)
    }

    /// The height of the image, in pixels.
    pub open spec fn rows(self) -> nat {
        buffer_height(self)
    }

    /// The pixels, row after row, the top row first, each row from left to
    /// right.
    pub open spec fn pixels(self) -> Seq<Rgb> {
        buffer_pixels(self)
    }

    /// There is one pixel for every place of the image, and the image is no
    /// larger than a buffer can be.
    pub open spec fn wf(self) -> bool {
        &&& self.pixels().len() == self.columns() * self.rows()
        &&& self.columns() <= u32::MAX
        &&& self.rows() <= u32::MAX
        &&& 3 * self.columns() * self.rows() <= isize::MAX
    }

    /// The place in `pixels` of the pixel in column `x` of row `y`.
    pub open spec fn offset(self, x: int, y: int) -> int {
        y * self.columns() + x
    }

    /// The pixel in column `x` of row `y`.
    pub open spec fn at(self, x: int, y: int) -> Rgb {
        self.pixels()[self.offset(x, y)]
    }

    /// Places inside the image have their pixel inside `pixels`, and
    /// different places have different pixels.
    pub proof fn lemma_offset(self, x: int, y: int)
        requires
            self.wf(),
            0 <= x < self.columns(),
            0 <= y < self.rows(),
        ensures
            0 <= y * self.columns() <= self.offset(x, y) < self.pixels().len(),
            self.offset(x, y) / (self.columns() as int) == y,
            self.offset(x, y) % (self.columns() as int) == x,
    {
        let w = self.columns() as int;
        let h = self.rows() as int;
        assert(y * w + x < w * h) by (nonlinear_arith)
            requires
                0 <= x < w,
                0 <= y < h,
        ;
        assert(0 <= y * w) by (nonlinear_arith)
            requires
                0 <= y,
                0 <= w,
        ;
        vstd::arithmetic::div_mod::lemma_fundamental_div_mod_converse(y * w + x, w, y, x);
    }

    /// A black image of `width` by `height` pixels. Three bytes go to a
    /// pixel, and all of them together must not be more than memory can be
    /// asked for at once.
    pub fn new(width: u32, height: u32) -> (image: Raster)
        requires
            3 * width * height <= isize::MAX,
        ensures
            image.wf(),
            image.columns() == width,
            image.rows() == height,
            forall|i: int| 0 <= i < image.pixels().len() ==> image.pixels()[i] == black(),
    {
        buffer_new(width, height)
    }

    pub fn width(&self) -> (width: u32)
        ensures
            width == self.columns(),
    {
        buffer_columns(self)
    }

    pub fn height(&self) -> (height: u32)
        ensures
            height == self.rows(),
    {
        buffer_rows(self)
    }

    /// The pixel in column `x` of row `y`.
    pub fn get_pixel(&self, x: u32, y: u32) -> (color: Rgb)
        requires
            x < self.columns(),
            y < self.rows(),
        ensures
            color == self.at(x as int, y as int),
    {
        buffer_get(self, x, y)
    }

    /// Gives the pixel in column `x` of row `y` the colour `color`, and
    /// leaves every other pixel as it is.
    pub fn put_pixel(&mut self, x: u32, y: u32, color: Rgb)
        requires
            x < old(self).columns(),
            y < old(self).rows(),
        ensures
            final(self).columns() == old(self).columns(),
            final(self).rows() == old(self).rows(),
            final(self).pixels() == old(self).pixels().update(
                old(self).offset(x as int, y as int),
                color,
            ),
            old(self).wf() ==> final(self).wf() && final(self).at(x as int, y as int) == color,
    {
        proof {
            if self.wf() {
                self.lemma_offset(x as int, y as int);
            }
        }
        buffer_put(self, x, y, color);
    }
}

} // verus!
