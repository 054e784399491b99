//! Image handling.

use vstd::prelude::*;
use crate::pixmap::Pixmap;

verus! {

/// An image: nominal dimensions and, where one has been decoded, its pixel
/// data.
pub struct Image {
    width: i32,
    height: i32,
    pixmap: Option<Pixmap>,
}

impl Image {
    pub closed spec fn spec_width(&self) -> i32 {
        self.width
    }

    pub closed spec fn spec_height(&self) -> i32 {
        self.height
    }

    pub closed spec fn spec_pixmap(&self) -> Option<Pixmap> {
        self.pixmap
    }

    pub fn new(width: i32, height: i32, pixmap: Option<Pixmap>) -> (r: Image)
        ensures
            r.spec_width() == width,
            r.spec_height() == height,
            r.spec_pixmap() == pixmap,
    {
        Image { width, height, pixmap }
    }

    pub fn width(&self) -> (r: i32)
        ensures
            r == self.spec_width(),
    {
        self.width
    }

    pub fn height(&self) -> (r: i32)
        ensures
            r == self.spec_height(),
    {
        self.height
    }

    pub fn pixmap(&self) -> (r: Option<&Pixmap>)
        ensures
            match r {
                Some(p) => (self.spec_pixmap() matches Some(q) && q == *p),
                None => (self.spec_pixmap() is None),
            },
    {
        self.pixmap.as_ref()
    }
}

} // verus!
