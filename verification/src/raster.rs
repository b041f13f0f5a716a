//! The image as a sequence of pixels: what is rendered, and which pixel
//! leaves when.
//!
//! Pixels leave in raster order: the top row first, and each row from left
//! to right. Rows are counted from the bottom, so the top row is the one with
//! the largest number.

use vstd::prelude::*;

verus! {

/// Why a rendering was refused before it began.
#[derive(Clone, Copy, Debug, PartialEq, Eq, Structural)]
pub enum ConfigError {
    /// The image has no columns.
    ZeroWidth,
    /// The image has no rows.
    ZeroHeight,
    /// No sample is taken per pixel.
    ZeroSamples,
}

/// What a rendering is asked to produce: an image of `width` by `height`
/// pixels, each the mean of `samples_per_pixel` paths of depth `max_depth`.
/// Width, height and the number of samples are not zero.
#[derive(Clone, Copy, Debug)]
pub struct Settings {
    width: u32,
    height: u32,
    samples_per_pixel: u32,
    max_depth: u32,
}

/// The place in raster order of the pixel in column `col` of row `row`, in an
/// image of `width` by `height` pixels.
pub open spec fn place(width: int, height: int, col: int, row: int) -> int {
    (height - 1 - row) * width + col
}

/// The column of the pixel at place `k` in an image `width` pixels wide.
pub open spec fn col_at(width: int, k: int) -> int {
    k % width
}

/// The row of the pixel at place `k` in an image of `width` by `height`
/// pixels.
pub open spec fn row_at(width: int, height: int, k: int) -> int {
    height - 1 - k / width
}

impl Settings {
    pub closed spec fn spec_width(&self) -> u32 {
        self.width
    }

    pub closed spec fn spec_height(&self) -> u32 {
        self.height
    }

    pub closed spec fn spec_samples_per_pixel(&self) -> u32 {
        self.samples_per_pixel
    }

    pub closed spec fn spec_max_depth(&self) -> u32 {
        self.max_depth
    }

    /// No dimension of the image is zero, and neither is the number of
    /// samples.
    #[verifier::type_invariant]
    pub open spec fn valid(self) -> bool {
        &&& self.spec_width() > 0
        &&& self.spec_height() > 0
        &&& self.spec_samples_per_pixel() > 0
    }

    /// The number of pixels of the image.
    pub open spec fn spec_pixel_count(&self) -> int {
        self.spec_width() * self.spec_height()
    }

    /// Accepts the settings of a rendering, or says what is wrong with them:
    /// the width if it is zero, else the height if it is, else the number of
    /// samples if it is.
    pub fn new(width: u32, height: u32, samples_per_pixel: u32, max_depth: u32) -> (r: Result<
        Settings,
        ConfigError,
    >)
        ensures
            match r {
                Ok(s) => {
                    &&& width > 0 && height > 0 && samples_per_pixel > 0
                    &&& s.valid()
                    &&& s.spec_width() == width
                    &&& s.spec_height() == height
                    &&& s.spec_samples_per_pixel() == samples_per_pixel
                    &&& s.spec_max_depth() == max_depth
                },
                Err(ConfigError::ZeroWidth) => width == 0,
                Err(ConfigError::ZeroHeight) => width > 0 && height == 0,
                Err(ConfigError::ZeroSamples) => width > 0 && height > 0 && samples_per_pixel == 0,
            },
    {
        if width == 0 {
            Err(ConfigError::ZeroWidth)
        } else if height == 0 {
            Err(ConfigError::ZeroHeight)
        } else if samples_per_pixel == 0 {
            Err(ConfigError::ZeroSamples)
        } else {
            Ok(Settings { width, height, samples_per_pixel, max_depth })
        }
    }

    #[verifier::when_used_as_spec(spec_width)]
    pub fn width(&self) -> (w: u32)
        ensures
            w == self.spec_width(),
            w > 0,
    {
        proof {
            use_type_invariant(self);
        }
        self.width
    }

    #[verifier::when_used_as_spec(spec_height)]
    pub fn height(&self) -> (h: u32)
        ensures
            h == self.spec_height(),
            h > 0,
    {
        proof {
            use_type_invariant(self);
        }
        self.height
    }

    #[verifier::when_used_as_spec(spec_samples_per_pixel)]
    pub fn samples_per_pixel(&self) -> (n: u32)
        ensures
            n == self.spec_samples_per_pixel(),
            n > 0,
    {
        proof {
            use_type_invariant(self);
        }
        self.samples_per_pixel
    }

    #[verifier::when_used_as_spec(spec_max_depth)]
    pub fn max_depth(&self) -> (d: u32)
        ensures
            d == self.spec_max_depth(),
    {
        self.max_depth
    }

    /// The number of pixels of the image.
    pub fn pixel_count(&self) -> (n: u64)
        ensures
            n == self.spec_pixel_count(),
            n > 0,
    {
        proof {
            use_type_invariant(self);
            lemma_count_fits(self.width as int, self.height as int);
        }
        (self.width as u64) * (self.height as u64)
    }

    /// The column and the row of the pixel that leaves at place `k`, if the
    /// image has that many pixels.
    pub fn pixel_at(&self, k: u64) -> (r: Option<(u32, u32)>)
        ensures
            r.is_some() <==> k < self.spec_pixel_count(),
            r matches Some((col, row)) ==> {
                &&& col == col_at(self.spec_width() as int, k as int)
                &&& row == row_at(self.spec_width() as int, self.spec_height() as int, k as int)
                &&& col < self.spec_width()
                &&& row < self.spec_height()
                &&& place(self.spec_width() as int, self.spec_height() as int, col as int, row as int)
                    == k
            },
    {
        let count: u64 = self.pixel_count();
        if k >= count {
            return None;
        }
        let w: u64 = self.width as u64;
        let h: u64 = self.height as u64;
        proof {
            use_type_invariant(self);
            lemma_place_of_pixel(w as int, h as int, k as int);
        }
        let col: u64 = k % w;
        let down: u64 = k / w;
        let row: u64 = h - 1 - down;
        Some((col as u32, row as u32))
    }

    /// The place in raster order of the pixel in column `col` of row `row`,
    /// if the image has such a pixel.
    pub fn place_of(&self, col: u32, row: u32) -> (r: Option<u64>)
        ensures
            r.is_some() <==> col < self.spec_width() && row < self.spec_height(),
            r matches Some(k) ==> {
                &&& k == place(self.spec_width() as int, self.spec_height() as int, col as int, row as int)
                &&& k < self.spec_pixel_count()
            },
    {
        if col >= self.width || row >= self.height {
            return None;
        }
        let w: u64 = self.width as u64;
        let h: u64 = self.height as u64;
        proof {
            use_type_invariant(self);
            lemma_pixel_of_place(w as int, h as int, col as int, row as int);
            lemma_count_fits(w as int, h as int);
        }
        let down: u64 = h - 1 - row as u64;
        Some(down * w + col as u64)
    }
}

/// The number of pixels of an image whose dimensions fit in 32 bits fits in
/// 64 bits.
pub proof fn lemma_count_fits(width: int, height: int)
    requires
        0 < width <= u32::MAX,
        0 < height <= u32::MAX,
    ensures
        0 < width * height <= u64::MAX,
{
    assert(0 < width * height <= 0xffff_ffff * 0xffff_ffff) by (nonlinear_arith)
        requires
            0 < width <= 0xffff_ffff,
            0 < height <= 0xffff_ffff,
    ;
}

/// Column and row of a place lie in the image, and the place of that column
/// and row is the place again.
pub proof fn lemma_place_of_pixel(width: int, height: int, k: int)
    requires
        0 < width,
        0 < height,
        0 <= k < width * height,
    ensures
        0 <= col_at(width, k) < width,
        0 <= row_at(width, height, k) < height,
        place(width, height, col_at(width, k), row_at(width, height, k)) == k,
{
    let q = k / width;
    let r = k % width;
    assert(k == q * width + r && 0 <= r < width) by (nonlinear_arith)
        requires
            0 < width,
            q == k / width,
            r == k % width,
    ;
    assert(0 <= q < height) by (nonlinear_arith)
        requires
            0 < width,
            0 <= k < width * height,
            k == q * width + r,
            0 <= r < width,
    ;
}

/// The place of a column and row lies in the image, and column and row of
/// that place are the column and row again.
pub proof fn lemma_pixel_of_place(width: int, height: int, col: int, row: int)
    requires
        0 < width,
        0 < height,
        0 <= col < width,
        0 <= row < height,
    ensures
        0 <= place(width, height, col, row) < width * height,
        col_at(width, place(width, height, col, row)) == col,
        row_at(width, height, place(width, height, col, row)) == row,
{
    let d = height - 1 - row;
    let k = d * width + col;
    assert(0 <= k < width * height) by (nonlinear_arith)
        requires
            0 < width,
            0 <= d < height,
            0 <= col < width,
            k == d * width + col,
    ;
    vstd::arithmetic::div_mod::lemma_fundamental_div_mod_converse(k, width, d, col);
}

/// Raster order runs from the top row down, and within a row from left to
/// right: of two places the earlier lies in a higher row, or in the same row
/// further left.
pub proof fn lemma_raster_order(width: int, height: int, k1: int, k2: int)
    requires
        0 < width,
        0 < height,
        0 <= k1 < k2 < width * height,
    ensures
        row_at(width, height, k1) > row_at(width, height, k2) || (row_at(width, height, k1)
            == row_at(width, height, k2) && col_at(width, k1) < col_at(width, k2)),
{
    lemma_place_of_pixel(width, height, k1);
    lemma_place_of_pixel(width, height, k2);
    let q1 = k1 / width;
    let q2 = k2 / width;
    let r1 = k1 % width;
    let r2 = k2 % width;
    assert(q1 <= q2) by (nonlinear_arith)
        requires
            0 < width,
            k1 < k2,
            k1 == (height - 1 - (height - 1 - q1)) * width + r1,
            k2 == (height - 1 - (height - 1 - q2)) * width + r2,
            0 <= r1 < width,
            0 <= r2 < width,
    ;
    if q1 == q2 {
        assert(r1 < r2) by (nonlinear_arith)
            requires
                q1 == q2,
                k1 < k2,
                k1 == (height - 1 - (height - 1 - q1)) * width + r1,
                k2 == (height - 1 - (height - 1 - q2)) * width + r2,
        ;
    }
}

} // verus!
