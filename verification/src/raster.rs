//! Pixel buffers: a rectangle of pixels with a fixed number of 8-bit channels,
//! stored row by row with the channels of one pixel next to each other.

use vstd::prelude::*;
use crate::error::ReadError;
use crate::shape::{into_shape, shape_admits};

verus! {

/// A `width` x `height` rectangle of pixels with `channels` bytes per pixel.
///
/// The same type carries four-channel window captures, three-channel colour
/// frames and single-channel masks.
#[derive(Debug)]
pub struct Raster {
    pub width: usize,
    pub height: usize,
    pub channels: usize,
    pub data: Vec<u8>,
}

/// Position of channel `c` of pixel `(x, y)` in a row-major buffer.
pub open spec fn offset_of(width: int, channels: int, x: int, y: int, c: int) -> int {
    (y * width + x) * channels + c
}

/// Every in-range coordinate lands inside a buffer of `width * height * channels` bytes.
pub proof fn lemma_offset_in_bounds(width: int, height: int, channels: int, x: int, y: int, c: int)
    requires
        0 <= x < width,
        0 <= y < height,
        0 <= c < channels,
    ensures
        0 <= offset_of(width, channels, x, y, c) < width * height * channels,
        0 <= y * width <= y * width + x < width * height,
        0 <= (y * width + x) * channels <= offset_of(width, channels, x, y, c),
        width * height <= width * height * channels,
{
    assert(0 <= y * width <= y * width + x < width * height) by (nonlinear_arith)
        requires
            0 <= x < width,
            0 <= y < height,
    ;
    let p = y * width + x;
    let n = width * height;
    assert(0 <= p * channels <= p * channels + c < n * channels && n <= n * channels)
        by (nonlinear_arith)
        requires
            0 <= p < n,
            0 <= c < channels,
    ;
}

/// Two digits in a mixed radix determine the number, and the number determines them.
pub proof fn lemma_radix_unique(hi1: int, lo1: int, hi2: int, lo2: int, radix: int)
    requires
        0 <= lo1 < radix,
        0 <= lo2 < radix,
        hi1 * radix + lo1 == hi2 * radix + lo2,
    ensures
        hi1 == hi2,
        lo1 == lo2,
{
    assert(hi1 == hi2) by (nonlinear_arith)
        requires
            0 <= lo1 < radix,
            0 <= lo2 < radix,
            hi1 * radix + lo1 == hi2 * radix + lo2,
    ;
}

/// Distinct in-range coordinates never share a buffer position.
pub proof fn lemma_offset_injective(
    width: int,
    channels: int,
    x1: int,
    y1: int,
    c1: int,
    x2: int,
    y2: int,
    c2: int,
)
    requires
        0 <= x1 < width,
        0 <= x2 < width,
        0 <= c1 < channels,
        0 <= c2 < channels,
        offset_of(width, channels, x1, y1, c1) == offset_of(width, channels, x2, y2, c2),
    ensures
        x1 == x2,
        y1 == y2,
        c1 == c2,
{
    lemma_radix_unique(y1 * width + x1, c1, y2 * width + x2, c2, channels);
    lemma_radix_unique(y1, x1, y2, x2, width);
}

/// The bytes of a well-formed raster fit the address space, and so do its
/// pixels when it has a channel.
pub proof fn lemma_size_fits(r: &Raster)
    requires
        r.wf(),
    ensures
        r.width * r.height * r.channels <= usize::MAX,
        r.channels >= 1 ==> r.width * r.height <= usize::MAX,
{
    let len = r.data.len();
    assert(len == r.data@.len());
    if r.channels >= 1 {
        assert(r.width * r.height <= r.width * r.height * r.channels) by (nonlinear_arith)
            requires
                r.channels >= 1,
        ;
    }
}

/// A shape that is no larger in any direction has no more bytes.
pub proof fn lemma_smaller_fits(w1: int, h1: int, c1: int, w2: int, h2: int, c2: int)
    requires
        0 <= w1 <= w2,
        0 <= h1 <= h2,
        0 <= c1 <= c2,
    ensures
        w1 * h1 * c1 <= w2 * h2 * c2,
        w1 * h1 <= w2 * h2,
{
    assert(w1 * h1 <= w2 * h2) by (nonlinear_arith)
        requires
            0 <= w1 <= w2,
            0 <= h1 <= h2,
    ;
    let (a, b) = (w1 * h1, w2 * h2);
    assert(a * c1 <= b * c2) by (nonlinear_arith)
        requires
            0 <= a <= b,
            0 <= c1 <= c2,
    ;
}

impl Raster {
    /// The buffer holds exactly one byte per channel of every pixel.
    pub open spec fn wf(&self) -> bool {
        self.data@.len() == self.width * self.height * self.channels
    }

    /// `(x, y)` names a pixel of this raster.
    pub open spec fn contains(&self, x: int, y: int) -> bool {
        0 <= x < self.width && 0 <= y < self.height
    }

    /// Channel `c` of the pixel at column `x`, row `y`.
    pub open spec fn at(&self, x: int, y: int, c: int) -> u8 {
        self.data@[offset_of(self.width as int, self.channels as int, x, y, c)]
    }

    /// The value of a single-channel pixel.
    #[verifier::inline]
    pub open spec fn px(&self, x: int, y: int) -> u8 {
        self.at(x, y, 0)
    }

    /// Same dimensions and channel count as `other`.
    pub open spec fn same_shape(&self, other: &Raster) -> bool {
        self.width == other.width && self.height == other.height && self.channels
            == other.channels
    }

    /// Every channel of every pixel is `value`.
    pub open spec fn is_filled(&self, value: u8) -> bool {
        forall|x: int, y: int, c: int|
            self.contains(x, y) && 0 <= c < self.channels ==> #[trigger] self.at(x, y, c) == value
    }

    /// A raster of the given shape with every byte set to `fill`, or `None`
    /// when the byte count does not fit the address space.
    pub fn new(width: usize, height: usize, channels: usize, fill: u8) -> (out: Option<Raster>)
        ensures
            out is Some <==> width * height * channels <= usize::MAX,
            out matches Some(r) ==> r.wf() && r.width == width && r.height == height && r.channels
                == channels && r.is_filled(fill),
    {
        let pixels = match width.checked_mul(height) {
            Some(p) => p,
            None => {
                if channels == 0 {
                    // An empty buffer fits whatever the dimensions are.
                    assert(width * height * channels == 0) by (nonlinear_arith)
                        requires
                            channels == 0,
                    ;
                    return Some(Raster { width, height, channels, data: Vec::new() });
                }
                assert(width * height * channels > usize::MAX) by (nonlinear_arith)
                    requires
                        width * height > usize::MAX,
                        channels >= 1,
                ;
                return None;
            },
        };
        let total = match pixels.checked_mul(channels) {
            Some(t) => t,
            None => {
                return None;
            },
        };
        let mut data: Vec<u8> = Vec::new();
        let mut i: usize = 0;
        while i < total
            invariant
                i <= total,
                data@.len() == i,
                forall|k: int| 0 <= k < i ==> data@[k] == fill,
            decreases total - i,
        {
            data.push(fill);
            i += 1;
        }
        let r = Raster { width, height, channels, data };
        proof {
            assert forall|x: int, y: int, c: int|
                r.contains(x, y) && 0 <= c < r.channels implies #[trigger] r.at(x, y, c)
                == fill by {
                lemma_offset_in_bounds(width as int, height as int, channels as int, x, y, c);
            }
        }
        Some(r)
    }

    /// Takes a row-major buffer as a raster of the given shape. A buffer whose
    /// length does not match the shape is no capture: `CaptureFailure`.
    pub fn from_bytes(width: usize, height: usize, channels: usize, data: Vec<u8>) -> (out: Result<
        Raster,
        ReadError,
    >)
        ensures
            out is Ok <==> shape_admits(
                height as int,
                width as int,
                channels as int,
                data@.len() as int,
            ),
            out matches Ok(r) ==> r.wf() && r.width == width && r.height == height && r.channels
                == channels && r.data@ == data@,
            out matches Err(e) ==> e == ReadError::CaptureFailure,
    {
        match into_shape(height, width, channels, data) {
            Ok(data) => {
                assert(width * height * channels == height * width * channels)
                    by (nonlinear_arith);
                Ok(Raster { width, height, channels, data })
            },
            Err(_) => Err(ReadError::CaptureFailure),
        }
    }

    /// Reads channel `c` of pixel `(x, y)`.
    pub fn get(&self, x: usize, y: usize, c: usize) -> (v: u8)
        requires
            self.wf(),
            self.contains(x as int, y as int),
            c < self.channels,
        ensures
            v == self.at(x as int, y as int, c as int),
    {
        proof {
            lemma_offset_in_bounds(
                self.width as int,
                self.height as int,
                self.channels as int,
                x as int,
                y as int,
                c as int,
            );
        }
        proof {
            lemma_size_fits(self);
        }
        self.data[(y * self.width + x) * self.channels + c]
    }

    /// Writes channel `c` of pixel `(x, y)` and leaves every other byte alone.
    pub fn set(&mut self, x: usize, y: usize, c: usize, value: u8)
        requires
            old(self).wf(),
            old(self).contains(x as int, y as int),
            c < old(self).channels,
        ensures
            final(self).wf(),
            final(self).same_shape(old(self)),
            final(self).at(x as int, y as int, c as int) == value,
            forall|i: int, j: int, k: int|
                old(self).contains(i, j) && 0 <= k < old(self).channels && !(i == x && j == y && k
                    == c) ==> #[trigger] final(self).at(i, j, k) == old(self).at(i, j, k),
    {
        proof {
            lemma_offset_in_bounds(
                self.width as int,
                self.height as int,
                self.channels as int,
                x as int,
                y as int,
                c as int,
            );
        }
        proof {
            lemma_size_fits(self);
        }
        let at: usize = (y * self.width + x) * self.channels + c;
        self.data.set(at, value);
        proof {
            let w = self.width as int;
            let ch = self.channels as int;
            assert forall|i: int, j: int, k: int|
                old(self).contains(i, j) && 0 <= k < old(self).channels && !(i == x && j == y && k
                    == c) implies #[trigger] self.at(i, j, k) == old(self).at(i, j, k) by {
                lemma_offset_in_bounds(w, self.height as int, ch, i, j, k);
                if offset_of(w, ch, i, j, k) == offset_of(w, ch, x as int, y as int, c as int) {
                    lemma_offset_injective(w, ch, i, j, k, x as int, y as int, c as int);
                }
            }
        }
    }
}

} // verus!
