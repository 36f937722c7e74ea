//! Putting a picture together from pixels that arrive in any order.

use vstd::prelude::*;
use crate::raster::{black, Raster, Rgb};

verus! {

/// The number of pixels of a picture.
pub fn total_pixels(image_width: u32, image_height: u32) -> (total: u32)
    requires
        image_width * image_height <= u32::MAX,
    ensures
        total == image_width * image_height,
{
    image_height * image_width
}

/// The row of the picture, counted from the top, that holds what was
/// sampled in row `y`, counted from the bottom.
pub fn output_row(image_height: u32, y: u32) -> (row: u32)
    requires
        y < image_height,
    ensures
        row == image_height - y - 1,
        row < image_height,
{
    image_height - y - 1
}

/// What the arrival of a pixel means for the picture as a whole.
#[derive(Clone, Copy, Debug, PartialEq, Eq, Structural)]
pub struct Progress {
    /// The number of scanlines' worth of pixels that have arrived, when the
    /// pixel that arrived has made that number whole.
    pub scanlines_done: Option<u32>,
    /// Whether every pixel has arrived.
    pub finished: bool,
}

/// A picture that is being put together, and the number of pixels that have
/// arrived for it.
pub struct Assembly {
    pub image: Raster,
    pub pixel_count: usize,
}

impl Assembly {
    /// The picture has all its places, and no more pixels have arrived than
    /// it has places.
    pub open spec fn wf(self) -> bool {
        self.image.wf() && self.pixel_count <= self.image.columns() * self.image.rows()
    }

    /// Whether every pixel has arrived.
    pub open spec fn complete(self) -> bool {
        self.pixel_count == self.image.columns() * self.image.rows()
    }

    /// What the arrival of one more pixel means.
    pub open spec fn progress(self) -> Progress {
        Progress {
            scanlines_done: if (self.pixel_count + 1) % (self.image.columns() as int) == 0 {
                Some(((self.pixel_count + 1) / (self.image.columns() as int)) as u32)
            } else {
                None
            },
            finished: self.pixel_count + 1 == self.image.columns() * self.image.rows(),
        }
    }

    /// A black picture of `image_width` by `image_height` pixels, for which
    /// no pixel has arrived.
    pub fn new(image_width: u32, image_height: u32) -> (assembly: Assembly)
        requires
            3 * image_width * image_height <= isize::MAX,
        ensures
            assembly.wf(),
            assembly.image.columns() == image_width,
            assembly.image.rows() == image_height,
            assembly.pixel_count == 0,
            forall|i: int|
                0 <= i < assembly.image.pixels().len() ==> assembly.image.pixels()[i] == black(),
    {
        Assembly { image: Raster::new(image_width, image_height), pixel_count: 0 }
    }

    /// The number of places of the picture.
    fn places(&self) -> (total: usize)
        requires
            self.image.wf(),
        ensures
            total == self.image.columns() * self.image.rows(),
    {
        let width = self.image.width() as usize;
        let height = self.image.height() as usize;
        assert(width * height <= 3 * width * height) by (nonlinear_arith)
            requires
                0 <= width,
                0 <= height,
        ;
        width * height
    }

    /// Whether every pixel has arrived.
    pub fn is_complete(&self) -> (complete: bool)
        requires
            self.wf(),
        ensures
            complete == self.complete(),
    {
        self.pixel_count == self.places()
    }

    /// Takes the pixel for column `x` of row `y`, counted from the top left,
    /// into the picture, and says what its arrival means: whether it has
    /// made the number of scanlines' worth of pixels whole, and whether it
    /// was the last.
    pub fn receive(&mut self, x: u32, y: u32, color: Rgb) -> (progress: Progress)
        requires
            old(self).wf(),
            !old(self).complete(),
            x < old(self).image.columns(),
            y < old(self).image.rows(),
        ensures
            final(self).wf(),
            final(self).pixel_count == old(self).pixel_count + 1,
            final(self).image.columns() == old(self).image.columns(),
            final(self).image.rows() == old(self).image.rows(),
            final(self).image.pixels() == old(self).image.pixels().update(
                old(self).image.offset(x as int, y as int),
                color,
            ),
            progress == old(self).progress(),
            progress.finished == final(self).complete(),
    {
        self.image.put_pixel(x, y, color);
        let total = self.places();
        assert(self.pixel_count < total);
        self.pixel_count = self.pixel_count + 1;
        let width = self.image.width() as usize;
        let scanlines_done = if self.pixel_count % width == 0 {
            proof {
                let ghost count = self.pixel_count as int;
                let ghost w = width as int;
                let ghost h = self.image.rows() as int;
                assert(count / w <= h) by (nonlinear_arith)
                    requires
                        count <= w * h,
                        w > 0,
                        h >= 0,
                ;
                assert(0 <= count / w) by (nonlinear_arith)
                    requires
                        count >= 0,
                        w > 0,
                ;
            }
            Some((self.pixel_count / width) as u32)
        } else {
            None
        };
        Progress { scanlines_done, finished: self.pixel_count == total }
    }

    /// The picture as it stands.
    pub fn into_image(self) -> (image: Raster)
        ensures
            image == self.image,
    {
        self.image
    }
}

/// Turning the rows upside down twice puts every row back where it was, so
/// no two sampled rows land in the same row of the picture.
pub proof fn lemma_rows_flip_back(image_height: u32, y: u32)
    requires
        y < image_height,
    ensures
        image_height - (image_height - y - 1) - 1 == y,
        0 <= image_height - y - 1 < image_height,
{
}

} // verus!
