use vstd::prelude::*;
use vstd::arithmetic::div_mod::{lemma_fundamental_div_mod, lemma_fundamental_div_mod_converse};
use crate::error::FilterError;

verus! {

/// The parameters of one pass: the size of the unpadded output, the radius of
/// the square window and the range parameter that selects the kernel.
#[derive(Clone, Copy, Debug, PartialEq, Eq, Structural)]
pub struct FilterConfig {
    pub width: u32,
    pub height: u32,
    pub spatial_radius: u32,
    pub range: u32,
}

/// A configuration that fits, measured in buffer indices.
#[derive(Clone, Copy, Debug, PartialEq, Eq, Structural)]
pub struct Extent {
    pub width: usize,
    pub height: usize,
    pub radius: usize,
    /// Samples per row of a padded buffer.
    pub stride: usize,
    /// Samples of the output buffer that a pass writes.
    pub output_len: usize,
}

impl FilterConfig {
    /// Samples per row of a padded buffer.
    pub open spec fn padded_width(&self) -> int {
        self.width + 2 * self.spatial_radius
    }

    /// Rows of a padded buffer.
    pub open spec fn padded_height(&self) -> int {
        self.height + 2 * self.spatial_radius
    }

    /// Samples of a padded buffer that a pass may read.
    pub open spec fn padded_len(&self) -> int {
        self.padded_width() * self.padded_height()
    }

    /// Samples of the output buffer that a pass writes.
    pub open spec fn output_len(&self) -> int {
        self.width * self.height
    }

    /// Samples per row, and rows, of the window around one pixel.
    pub open spec fn side(&self) -> int {
        2 * self.spatial_radius + 1
    }

    /// Padded index of the top left sample of the window of output pixel
    /// `(y, x)`.
    pub open spec fn origin(&self, y: int, x: int) -> int {
        y * self.padded_width() + x
    }

    /// Padded index of output pixel `(y, x)` itself.
    pub open spec fn center(&self, y: int, x: int) -> int {
        (y + self.spatial_radius) * self.padded_width() + (x + self.spatial_radius)
    }

    /// The first reason, if any, for which buffers of `capacity` samples
    /// cannot serve this configuration.
    pub open spec fn rejection(&self, capacity: int) -> Option<FilterError> {
        if self.width == 0 {
            Some(FilterError::ZeroWidth)
        } else if self.height == 0 {
            Some(FilterError::ZeroHeight)
        } else if self.range == 0 {
            Some(FilterError::ZeroRange)
        } else if self.padded_len() > capacity {
            Some(FilterError::CapacityExceeded)
        } else {
            None
        }
    }

    pub open spec fn valid(&self, capacity: int) -> bool {
        self.rejection(capacity) is None
    }

    /// What `measure` returns for a configuration that fits.
    pub open spec fn extent(&self) -> Extent {
        Extent {
            width: self.width as usize,
            height: self.height as usize,
            radius: self.spatial_radius as usize,
            stride: self.padded_width() as usize,
            output_len: self.output_len() as usize,
        }
    }

    pub fn new(width: u32, height: u32, spatial_radius: u32, range: u32) -> (config: FilterConfig)
        ensures
            config == (FilterConfig { width, height, spatial_radius, range }),
    {
        FilterConfig { width, height, spatial_radius, range }
    }

    /// Validates the configuration against buffers of `capacity` samples and
    /// converts it to buffer indices.
    pub fn measure(&self, capacity: usize) -> (result: Result<Extent, FilterError>)
        ensures
            match result {
                Ok(extent) => self.valid(capacity as int) && extent == self.extent(),
                Err(e) => self.rejection(capacity as int) == Some(e),
            },
    {
        if self.width == 0 {
            return Err(FilterError::ZeroWidth);
        }
        if self.height == 0 {
            return Err(FilterError::ZeroHeight);
        }
        if self.range == 0 {
            return Err(FilterError::ZeroRange);
        }
        let padded_width: u64 = self.width as u64 + 2 * (self.spatial_radius as u64);
        let padded_height: u64 = self.height as u64 + 2 * (self.spatial_radius as u64);
        assert(padded_width * padded_height <= 0x4_0000_0000 * 0x4_0000_0000) by (nonlinear_arith)
            requires
                padded_width <= 0x4_0000_0000,
                padded_height <= 0x4_0000_0000,
        ;
        let padded_len: u128 = (padded_width as u128) * (padded_height as u128);
        if padded_len > capacity as u128 {
            return Err(FilterError::CapacityExceeded);
        }
        proof {
            self.lemma_sizes_fit();
        }
        Ok(
            Extent {
                width: self.width as usize,
                height: self.height as usize,
                radius: self.spatial_radius as usize,
                stride: padded_width as usize,
                output_len: (self.width as usize) * (self.height as usize),
            },
        )
    }

    /// Every size of a configuration is at most the padded extent.
    pub proof fn lemma_sizes_fit(&self)
        requires
            self.width > 0,
            self.height > 0,
        ensures
            self.padded_width() <= self.padded_len(),
            self.padded_height() <= self.padded_len(),
            self.output_len() <= self.padded_len(),
            self.side() <= self.padded_width(),
            self.side() <= self.padded_height(),
            self.side() * self.side() <= self.padded_len(),
            0 < self.output_len(),
    {
        let w = self.width as int;
        let h = self.height as int;
        let s = self.spatial_radius as int;
        assert((w + 2 * s) <= (w + 2 * s) * (h + 2 * s)) by (nonlinear_arith)
            requires w > 0, h > 0, s >= 0;
        assert((h + 2 * s) <= (w + 2 * s) * (h + 2 * s)) by (nonlinear_arith)
            requires w > 0, h > 0, s >= 0;
        assert(w * h <= (w + 2 * s) * (h + 2 * s)) by (nonlinear_arith)
            requires w > 0, h > 0, s >= 0;
        assert((2 * s + 1) * (2 * s + 1) <= (w + 2 * s) * (h + 2 * s)) by (nonlinear_arith)
            requires w > 0, h > 0, s >= 0;
        assert(0 < w * h) by (nonlinear_arith)
            requires w > 0, h > 0;
    }

    /// Every sample of the window of an output pixel lies inside the padded
    /// extent.
    pub proof fn lemma_cell_inside(&self, y: int, x: int, r: int, c: int)
        requires
            0 <= y < self.height,
            0 <= x < self.width,
            0 <= r < self.side(),
            0 <= c < self.side(),
        ensures
            0 <= self.origin(y, x) + r * self.padded_width() + c < self.padded_len(),
            self.origin(y, x) + r * self.padded_width() + c == (y + r) * self.padded_width() + (x + c),
    {
        let pw = self.padded_width();
        let ph = self.padded_height();
        assert(y * pw + x + r * pw + c == (y + r) * pw + (x + c)) by (nonlinear_arith);
        assert(0 <= (y + r) * pw + (x + c) < pw * ph) by (nonlinear_arith)
            requires 0 <= y + r < ph, 0 <= x + c < pw;
    }
}

/// Row-major index `y * width + x` splits back into `y` and `x`.
pub proof fn lemma_row_major(width: int, height: int, y: int, x: int)
    requires
        0 <= y < height,
        0 <= x < width,
    ensures
        0 <= y * width + x < width * height,
        (y * width + x) / width == y,
        (y * width + x) % width == x,
{
    assert(0 <= y * width + x < width * height) by (nonlinear_arith)
        requires
            0 <= y < height,
            0 <= x < width,
    ;
    lemma_fundamental_div_mod_converse(y * width + x, width, y, x);
}

/// A row-major output index below `width * height` names a pixel of the
/// output.
pub proof fn lemma_pixel_of_index(width: int, height: int, p: int)
    requires
        0 < width,
        0 <= p < width * height,
    ensures
        0 <= p / width < height,
        0 <= p % width < width,
        p == (p / width) * width + p % width,
{
    lemma_fundamental_div_mod(p, width);
    let q = p / width;
    let r = p % width;
    assert(0 <= r < width);
    assert(0 <= q < height) by (nonlinear_arith)
        requires
            p == width * q + r,
            0 <= r < width,
            0 <= p < width * height,
            0 < width,
    ;
    assert(width * q == q * width) by (nonlinear_arith);
}

} // verus!
