//! In-memory images: an RGB grid for the inputs and a one-channel grid for
//! confidence maps.

use vstd::prelude::*;

verus! {

/// An RGB image stored row by row, three bytes per pixel.
pub struct Image {
    pub width: usize,
    pub height: usize,
    pub data: Vec<u8>,
}

impl Image {
    /// The buffer holds exactly three bytes for each pixel.
    pub open spec fn wf(&self) -> bool {
        self.data@.len() == 3 * self.width * self.height
    }

    /// Channel `c` of the pixel at column `x`, row `y`.
    pub open spec fn chan(&self, x: int, y: int, c: int) -> u8 {
        self.data@[3 * (y * self.width + x) + c]
    }

    /// The pixel at `(x, y)` is pure black.
    pub open spec fn is_black(&self, x: int, y: int) -> bool {
        self.chan(x, y, 0) == 0 && self.chan(x, y, 1) == 0 && self.chan(x, y, 2) == 0
    }

    /// Builds an image from a row-major RGB buffer; `None` when the buffer
    /// length is not three bytes per pixel.
    pub fn from_raw(width: usize, height: usize, data: Vec<u8>) -> (r: Option<Image>)
        ensures
            r.is_some() <==> data@.len() == 3 * width * height,
            r matches Some(img) ==> img.wf() && img.width == width && img.height == height
                && img.data@ == data@,
    {
        let len: usize = data.len();
        match width.checked_mul(height) {
            Some(pixels) => match pixels.checked_mul(3) {
                Some(n) => {
                    if n == len {
                        assert(3 * width * height == pixels * 3) by (nonlinear_arith)
                            requires pixels == width * height;
                        Some(Image { width, height, data })
                    } else {
                        assert(3 * width * height == pixels * 3) by (nonlinear_arith)
                            requires pixels == width * height;
                        None
                    }
                },
                None => {
                    assert(3 * width * height == pixels * 3) by (nonlinear_arith)
                        requires pixels == width * height;
                    None
                },
            },
            None => {
                assert(3 * width * height >= width * height) by (nonlinear_arith)
                    requires width * height >= 0;
                None
            },
        }
    }

    /// Reads one channel of one pixel.
    pub fn channel(&self, x: usize, y: usize, c: usize) -> (r: u8)
        requires
            self.wf(),
            x < self.width,
            y < self.height,
            c < 3,
        ensures
            r == self.chan(x as int, y as int, c as int),
    {
        let len: usize = self.data.len();
        proof {
            crate::arith::lemma_cell_in_grid(y as int, x as int, self.width as int, self.height as int);
        }
        self.data[3 * (y * self.width + x) + c]
    }
}

/// A grayscale map stored row by row, one byte per pixel.
pub struct ConfidenceMap {
    pub width: usize,
    pub height: usize,
    pub data: Vec<u8>,
}

impl ConfidenceMap {
    /// The buffer holds exactly one byte for each pixel.
    pub open spec fn wf(&self) -> bool {
        self.data@.len() == self.width * self.height
    }

    /// The value at `(x, y)`.
    pub open spec fn at(&self, x: int, y: int) -> u8 {
        self.data@[y * self.width + x]
    }

    /// An all-zero map of the given size.
    pub fn zeroed(width: usize, height: usize) -> (r: ConfidenceMap)
        requires
            width * height <= usize::MAX,
        ensures
            r.wf(),
            r.width == width,
            r.height == height,
            forall|i: int| 0 <= i < r.data@.len() ==> r.data@[i] == 0u8,
    {
        let n: usize = width * height;
        let data: Vec<u8> = vec![0u8; n];
        ConfidenceMap { width, height, data }
    }

    /// Reads the value at `(x, y)`.
    pub fn get(&self, x: usize, y: usize) -> (r: u8)
        requires
            self.wf(),
            x < self.width,
            y < self.height,
        ensures
            r == self.at(x as int, y as int),
    {
        let len: usize = self.data.len();
        proof {
            crate::arith::lemma_cell_in_grid(y as int, x as int, self.width as int, self.height as int);
        }
        self.data[y * self.width + x]
    }
}

} // verus!
