//! Colour thresholding: turns a hue/saturation/value frame into a binary mask.

use vstd::prelude::*;
use crate::bitmap::{paint, Bitmap};
use crate::raster::{lemma_size_fits, Raster};

verus! {

/// Mask value of a pixel that belongs to the text.
pub const FOREGROUND: u8 = 255;

/// Mask value of a pixel that does not.
pub const BACKGROUND: u8 = 0;

/// One pixel in hue/saturation/value space, eight bits per channel.
#[derive(Clone, Copy, Debug, PartialEq, Eq, Structural)]
pub struct Hsv {
    pub h: u8,
    pub s: u8,
    pub v: u8,
}

/// An inclusive box in hue/saturation/value space.
#[derive(Clone, Copy, Debug, PartialEq, Eq, Structural)]
pub struct ColorRange {
    pub min: Hsv,
    pub max: Hsv,
}

impl ColorRange {
    /// The lower corner does not exceed the upper corner in any channel.
    pub open spec fn wf(&self) -> bool {
        self.min.h <= self.max.h && self.min.s <= self.max.s && self.min.v <= self.max.v
    }

    /// `p` lies inside the box, bounds included.
    pub open spec fn includes(&self, p: Hsv) -> bool {
        &&& self.min.h <= p.h <= self.max.h
        &&& self.min.s <= p.s <= self.max.s
        &&& self.min.v <= p.v <= self.max.v
    }

    /// The mask value that `p` receives.
    pub open spec fn classify(&self, p: Hsv) -> u8 {
        if self.includes(p) {
            FOREGROUND
        } else {
            BACKGROUND
        }
    }

    /// The palette of the damage numerals: any hue up to 165, nearly no
    /// saturation, medium to full brightness.
    pub fn text() -> (range: ColorRange)
        ensures
            range.wf(),
            range.min == (Hsv { h: 0, s: 0, v: 104 }),
            range.max == (Hsv { h: 165, s: 13, v: 255 }),
    {
        ColorRange { min: Hsv { h: 0, s: 0, v: 104 }, max: Hsv { h: 165, s: 13, v: 255 } }
    }

    /// Builds a range, or `None` when a lower bound exceeds its upper bound.
    pub fn new(min: Hsv, max: Hsv) -> (out: Option<ColorRange>)
        ensures
            out is Some <==> min.h <= max.h && min.s <= max.s && min.v <= max.v,
            out matches Some(r) ==> r.min == min && r.max == max && r.wf(),
    {
        if min.h <= max.h && min.s <= max.s && min.v <= max.v {
            Some(ColorRange { min, max })
        } else {
            None
        }
    }

    /// Decides one pixel.
    pub fn test(&self, p: Hsv) -> (inside: bool)
        ensures
            inside == self.includes(p),
    {
        self.min.h <= p.h && p.h <= self.max.h && self.min.s <= p.s && p.s <= self.max.s
            && self.min.v <= p.v && p.v <= self.max.v
    }
}

/// The colour of pixel `(x, y)` of a three-channel frame.
pub open spec fn hsv_at(frame: &Raster, x: int, y: int) -> Hsv {
    Hsv { h: frame.at(x, y, 0), s: frame.at(x, y, 1), v: frame.at(x, y, 2) }
}

/// The model of the thresholded frame: a position is lit when its colour
/// lies in the range.
pub open spec fn threshold_model(frame: &Raster, range: ColorRange) -> Bitmap {
    Bitmap::from_fn(
        frame.width as int,
        frame.height as int,
        |x: int, y: int| range.includes(hsv_at(frame, x, y)),
    )
}

/// A pixel on the lower or on the upper corner of the range is foreground.
pub proof fn lemma_bounds_are_foreground(range: ColorRange)
    requires
        range.wf(),
    ensures
        range.classify(range.min) == FOREGROUND,
        range.classify(range.max) == FOREGROUND,
{
}

/// A pixel of which every channel sits exactly on one of its two bounds is
/// foreground.
pub proof fn lemma_corners_are_foreground(range: ColorRange, p: Hsv)
    requires
        range.wf(),
        p.h == range.min.h || p.h == range.max.h,
        p.s == range.min.s || p.s == range.max.s,
        p.v == range.min.v || p.v == range.max.v,
    ensures
        range.classify(p) == FOREGROUND,
{
}

/// A pixel that leaves the range in any channel, be it by a single unit, is
/// background.
pub proof fn lemma_outside_is_background(range: ColorRange, p: Hsv)
    requires
        p.h < range.min.h || p.h > range.max.h || p.s < range.min.s || p.s > range.max.s || p.v
            < range.min.v || p.v > range.max.v,
    ensures
        range.classify(p) == BACKGROUND,
{
}

/// Thresholds a three-channel hue/saturation/value frame.
pub fn threshold(frame: &Raster, range: &ColorRange) -> (mask: Raster)
    requires
        frame.wf(),
        frame.channels == 3,
    ensures
        mask.is_mask(),
        mask.bitmap() == threshold_model(frame, *range),
        forall|x: int, y: int|
            mask.contains(x, y) ==> #[trigger] mask.px(x, y) == range.classify(hsv_at(frame, x, y)),
{
    proof {
        lemma_size_fits(frame);
    }
    let in_range = |x: usize, y: usize| -> (lit: bool)
        requires
            x < frame.width,
            y < frame.height,
        ensures
            lit == range.includes(hsv_at(frame, x as int, y as int)),
        {
            range.test(Hsv { h: frame.get(x, y, 0), s: frame.get(x, y, 1), v: frame.get(x, y, 2) })
        };
    paint(
        frame.width,
        frame.height,
        in_range,
        Ghost(|x: int, y: int| range.includes(hsv_at(frame, x, y))),
    )
}

} // verus!
