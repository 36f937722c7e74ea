//! Textures that take their colours from a picture.

use vstd::prelude::*;
use crate::raster::{Raster, Rgb};

verus! {

/// A texture backed by a picture, or by nothing where the picture could not
/// be had.
pub struct ImageTexture {
    pub image: Option<Raster>,
}

/// The colour that stands in for a missing picture: a cyan that is hard to
/// overlook.
pub open spec fn missing_color() -> Rgb {
    Rgb { r: 0, g: 255, b: 255 }
}

/// The index `wanted`, or the last one below `count` where `wanted` lies
/// beyond it.
pub open spec fn clamped(wanted: int, count: int) -> int {
    if wanted < count {
        wanted
    } else {
        count - 1
    }
}

impl ImageTexture {
    /// The picture, if there is one, has a pixel for every place and at
    /// least one place.
    pub open spec fn wf(self) -> bool {
        self.image matches Some(picture) ==> picture.wf() && picture.columns() > 0
            && picture.rows() > 0
    }

    /// The texture backed by `image`.
    pub fn new(image: Option<Raster>) -> (texture: ImageTexture)
        ensures
            texture.image == image,
    {
        ImageTexture { image }
    }

    /// The colour of the picture at column `column` of row `row`, counted
    /// from the top left. A column or row beyond the picture counts as the
    /// last one. Without a picture the colour is [`missing_color`].
    pub fn value(&self, column: u32, row: u32) -> (color: Rgb)
        requires
            self.wf(),
        ensures
            color == match self.image {
                Some(picture) => picture.at(
                    clamped(column as int, picture.columns() as int),
                    clamped(row as int, picture.rows() as int),
                ),
                None => missing_color(),
            },
    {
        match &self.image {
            None => Rgb { r: 0, g: 255, b: 255 },
            Some(picture) => {
                let i = if column < picture.width() {
                    column
                } else {
                    picture.width() - 1
                };
                let j = if row < picture.height() {
                    row
                } else {
                    picture.height() - 1
                };
                picture.get_pixel(i, j)
            },
        }
    }
}

} // verus!
