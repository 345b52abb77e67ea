//! Morphological clean-up of a binary mask with rectangular structuring
//! elements: erosion, dilation, opening, and the merge step that confines the
//! thresholded pixels to the envelope of the numeral.

use vstd::prelude::*;
use crate::bitmap::{lemma_lit_agrees, paint, Bitmap};
use crate::color::FOREGROUND;
use crate::raster::{lemma_size_fits, Raster};

verus! {

/// A filled rectangular structuring element, anchored at its centre
/// `(width / 2, height / 2)`.
#[derive(Clone, Copy, Debug, PartialEq, Eq, Structural)]
pub struct Kernel {
    pub width: usize,
    pub height: usize,
}

impl Kernel {
    /// The element has at least one cell.
    pub open spec fn wf(&self) -> bool {
        self.width > 0 && self.height > 0
    }

    /// Column of the anchor inside the element.
    pub open spec fn anchor_x(&self) -> int {
        self.width as int / 2
    }

    /// Row of the anchor inside the element.
    pub open spec fn anchor_y(&self) -> int {
        self.height as int / 2
    }

    /// With the anchor laid on `(x, y)`, the element covers `(sx, sy)`.
    pub open spec fn covers(&self, x: int, y: int, sx: int, sy: int) -> bool {
        &&& x - self.anchor_x() <= sx < x - self.anchor_x() + self.width
        &&& y - self.anchor_y() <= sy < y - self.anchor_y() + self.height
    }
}

/// Every grid position that the element covers from `(x, y)` is lit.
/// Positions of the element that fall outside the grid do not count.
pub open spec fn all_lit_under(b: Bitmap, k: Kernel, x: int, y: int) -> bool {
    forall|sx: int, sy: int| b.contains(sx, sy) && k.covers(x, y, sx, sy) ==> #[trigger] b.lit(sx, sy)
}

/// Some grid position that the element covers from `(x, y)` is lit.
pub open spec fn some_lit_under(b: Bitmap, k: Kernel, x: int, y: int) -> bool {
    exists|sx: int, sy: int| k.covers(x, y, sx, sy) && #[trigger] b.lit(sx, sy)
}

/// Erosion: a position is lit when every position under the element is.
pub open spec fn erode_model(b: Bitmap, k: Kernel) -> Bitmap {
    Bitmap::from_fn(b.width, b.height, |x: int, y: int| all_lit_under(b, k, x, y))
}

/// Dilation: a position is lit when some position under the element is.
pub open spec fn dilate_model(b: Bitmap, k: Kernel) -> Bitmap {
    Bitmap::from_fn(b.width, b.height, |x: int, y: int| some_lit_under(b, k, x, y))
}

/// Dilation applied `times` times in a row.
pub open spec fn dilate_times_model(b: Bitmap, k: Kernel, times: nat) -> Bitmap
    decreases times,
{
    if times == 0 {
        b
    } else {
        dilate_model(dilate_times_model(b, k, (times - 1) as nat), k)
    }
}

/// Opening: erosion followed by dilation with the same element and the same
/// anchor. With an element of even size the anchor is off centre, and what
/// survives the erosion grows back one position down and to the right.
pub open spec fn open_model(b: Bitmap, k: Kernel) -> Bitmap {
    dilate_model(erode_model(b, k), k)
}

/// Positions lit in both grids; the size is that of the first.
pub open spec fn intersect_model(a: Bitmap, b: Bitmap) -> Bitmap {
    Bitmap { width: a.width, height: a.height, on: a.on.intersect(b.on) }
}

/// The part `[lo, hi)` of `0..limit` that an element of `size` cells reaches
/// when its anchor, `size / 2` cells in, lies on `at`.
fn reach(at: usize, size: usize, limit: usize) -> (r: (usize, usize))
    requires
        size > 0,
        at < limit,
    ensures
        r.0 <= at < r.1 <= limit,
        r.0 == if at - size as int / 2 >= 0 {
            at - size as int / 2
        } else {
            0
        },
        r.1 == if at - size as int / 2 + size <= limit {
            at - size as int / 2 + size
        } else {
            limit as int
        },
{
    let before = size / 2;
    let after = size - before;
    let lo = if at >= before {
        at - before
    } else {
        0
    };
    let hi = if limit - at <= after {
        limit
    } else {
        at + after
    };
    (lo, hi)
}

/// Whether every pixel of the window `[x_lo, x_hi) x [y_lo, y_hi)` is lit.
fn window_all_lit(src: &Raster, x_lo: usize, x_hi: usize, y_lo: usize, y_hi: usize) -> (all: bool)
    requires
        src.wf(),
        src.channels == 1,
        x_lo <= x_hi <= src.width,
        y_lo <= y_hi <= src.height,
    ensures
        all == forall|sx: int, sy: int|
            x_lo <= sx < x_hi && y_lo <= sy < y_hi ==> #[trigger] src.lit(sx, sy),
{
    let mut sy: usize = y_lo;
    while sy < y_hi
        invariant
            src.wf(),
            src.channels == 1,
            x_lo <= x_hi <= src.width,
            y_lo <= sy <= y_hi <= src.height,
            forall|i: int, j: int| x_lo <= i < x_hi && y_lo <= j < sy ==> #[trigger] src.lit(i, j),
        decreases y_hi - sy,
    {
        let mut sx: usize = x_lo;
        while sx < x_hi
            invariant
                src.wf(),
                src.channels == 1,
                x_lo <= sx <= x_hi <= src.width,
                y_lo <= sy < y_hi <= src.height,
                forall|i: int, j: int|
                    x_lo <= i < x_hi && y_lo <= j < sy ==> #[trigger] src.lit(i, j),
                forall|i: int| x_lo <= i < sx ==> #[trigger] src.lit(i, sy as int),
            decreases x_hi - sx,
        {
            if src.get(sx, sy, 0) != FOREGROUND {
                assert(!src.lit(sx as int, sy as int));
                return false;
            }
            sx += 1;
        }
        sy += 1;
    }
    true
}

/// Whether some pixel of the window `[x_lo, x_hi) x [y_lo, y_hi)` is lit.
fn window_any_lit(src: &Raster, x_lo: usize, x_hi: usize, y_lo: usize, y_hi: usize) -> (any: bool)
    requires
        src.wf(),
        src.channels == 1,
        x_lo <= x_hi <= src.width,
        y_lo <= y_hi <= src.height,
    ensures
        any == exists|sx: int, sy: int|
            x_lo <= sx < x_hi && y_lo <= sy < y_hi && #[trigger] src.lit(sx, sy),
{
    let mut sy: usize = y_lo;
    while sy < y_hi
        invariant
            src.wf(),
            src.channels == 1,
            x_lo <= x_hi <= src.width,
            y_lo <= sy <= y_hi <= src.height,
            forall|i: int, j: int|
                x_lo <= i < x_hi && y_lo <= j < sy ==> !#[trigger] src.lit(i, j),
        decreases y_hi - sy,
    {
        let mut sx: usize = x_lo;
        while sx < x_hi
            invariant
                src.wf(),
                src.channels == 1,
                x_lo <= sx <= x_hi <= src.width,
                y_lo <= sy < y_hi <= src.height,
                forall|i: int, j: int|
                    x_lo <= i < x_hi && y_lo <= j < sy ==> !#[trigger] src.lit(i, j),
                forall|i: int| x_lo <= i < sx ==> !#[trigger] src.lit(i, sy as int),
            decreases x_hi - sx,
        {
            if src.get(sx, sy, 0) == FOREGROUND {
                assert(src.lit(sx as int, sy as int));
                return true;
            }
            sx += 1;
        }
        sy += 1;
    }
    false
}

/// Erodes a single-channel raster with a rectangular element.
pub fn erode(src: &Raster, kernel: Kernel) -> (out: Raster)
    requires
        src.wf(),
        src.channels == 1,
        kernel.wf(),
    ensures
        out.is_mask(),
        out.bitmap() == erode_model(src.bitmap(), kernel),
{
    proof {
        lemma_size_fits(src);
    }
    let stays = |x: usize, y: usize| -> (all: bool)
        requires
            x < src.width,
            y < src.height,
        ensures
            all == all_lit_under(src.bitmap(), kernel, x as int, y as int),
        {
            let (x_lo, x_hi) = reach(x, kernel.width, src.width);
            let (y_lo, y_hi) = reach(y, kernel.height, src.height);
            let all = window_all_lit(src, x_lo, x_hi, y_lo, y_hi);
            proof {
                let b = src.bitmap();
                if all {
                    assert forall|sx: int, sy: int|
                        b.contains(sx, sy) && kernel.covers(
                            x as int,
                            y as int,
                            sx,
                            sy,
                        ) implies #[trigger] b.lit(sx, sy) by {
                        assert(src.lit(sx, sy));
                        lemma_lit_agrees(src, sx, sy);
                    }
                } else {
                    let (sx, sy) = choose|sx: int, sy: int|
                        x_lo <= sx < x_hi && y_lo <= sy < y_hi && !#[trigger] src.lit(sx, sy);
                    lemma_lit_agrees(src, sx, sy);
                    assert(b.contains(sx, sy) && kernel.covers(x as int, y as int, sx, sy) && !b.lit(
                        sx,
                        sy,
                    ));
                }
            }
            all
        };
    paint(
        src.width,
        src.height,
        stays,
        Ghost(|x: int, y: int| all_lit_under(src.bitmap(), kernel, x, y)),
    )
}

/// Dilates a single-channel raster with a rectangular element.
pub fn dilate(src: &Raster, kernel: Kernel) -> (out: Raster)
    requires
        src.wf(),
        src.channels == 1,
        kernel.wf(),
    ensures
        out.is_mask(),
        out.bitmap() == dilate_model(src.bitmap(), kernel),
{
    proof {
        lemma_size_fits(src);
    }
    let reached = |x: usize, y: usize| -> (any: bool)
        requires
            x < src.width,
            y < src.height,
        ensures
            any == some_lit_under(src.bitmap(), kernel, x as int, y as int),
        {
            let (x_lo, x_hi) = reach(x, kernel.width, src.width);
            let (y_lo, y_hi) = reach(y, kernel.height, src.height);
            let any = window_any_lit(src, x_lo, x_hi, y_lo, y_hi);
            proof {
                let b = src.bitmap();
                if any {
                    let (sx, sy) = choose|sx: int, sy: int|
                        x_lo <= sx < x_hi && y_lo <= sy < y_hi && #[trigger] src.lit(sx, sy);
                    lemma_lit_agrees(src, sx, sy);
                    assert(kernel.covers(x as int, y as int, sx, sy) && b.lit(sx, sy));
                } else {
                    assert forall|sx: int, sy: int|
                        kernel.covers(x as int, y as int, sx, sy) implies !#[trigger] b.lit(
                        sx,
                        sy,
                    ) by {
                        lemma_lit_agrees(src, sx, sy);
                        if b.contains(sx, sy) {
                            assert(!src.lit(sx, sy));
                        }
                    }
                }
            }
            any
        };
    paint(
        src.width,
        src.height,
        reached,
        Ghost(|x: int, y: int| some_lit_under(src.bitmap(), kernel, x, y)),
    )
}

/// Dilates `times` times in a row.
pub fn dilate_times(src: &Raster, kernel: Kernel, times: usize) -> (out: Raster)
    requires
        src.is_mask(),
        kernel.wf(),
    ensures
        out.is_mask(),
        out.bitmap() == dilate_times_model(src.bitmap(), kernel, times as nat),
{
    let mut out = copy_mask(src);
    let mut done: usize = 0;
    while done < times
        invariant
            kernel.wf(),
            done <= times,
            out.is_mask(),
            out.bitmap() == dilate_times_model(src.bitmap(), kernel, done as nat),
        decreases times - done,
    {
        out = dilate(&out, kernel);
        done += 1;
    }
    out
}

/// Opens a single-channel raster: erosion, then dilation with the same element.
pub fn open(src: &Raster, kernel: Kernel) -> (out: Raster)
    requires
        src.wf(),
        src.channels == 1,
        kernel.wf(),
    ensures
        out.is_mask(),
        out.bitmap() == open_model(src.bitmap(), kernel),
{
    let eroded = erode(src, kernel);
    dilate(&eroded, kernel)
}

/// A mask with the same pixels as `src`.
pub fn copy_mask(src: &Raster) -> (out: Raster)
    requires
        src.is_mask(),
    ensures
        out.is_mask(),
        out.bitmap() == src.bitmap(),
        out.data@ == src.data@,
{
    let mut data: Vec<u8> = Vec::new();
    let n = src.data.len();
    let mut i: usize = 0;
    while i < n
        invariant
            n == src.data@.len(),
            i <= n,
            data@ == src.data@.take(i as int),
        decreases n - i,
    {
        data.push(src.data[i]);
        assert(data@ =~= src.data@.take(i + 1));
        i += 1;
    }
    assert(data@ =~= src.data@);
    let out = Raster { width: src.width, height: src.height, channels: 1, data };
    proof {
        assert forall|x: int, y: int| out.px(x, y) == src.px(x, y) by {}
        assert(out.bitmap().on =~= src.bitmap().on);
    }
    out
}

/// Keeps the pixels that are lit in both masks.
pub fn intersect(a: &Raster, b: &Raster) -> (out: Raster)
    requires
        a.wf(),
        a.channels == 1,
        b.wf(),
        b.channels == 1,
        a.width == b.width,
        a.height == b.height,
    ensures
        out.is_mask(),
        out.bitmap() == intersect_model(a.bitmap(), b.bitmap()),
{
    proof {
        lemma_size_fits(a);
    }
    let both = |x: usize, y: usize| -> (lit: bool)
        requires
            x < a.width,
            y < a.height,
        ensures
            lit == (a.lit(x as int, y as int) && b.lit(x as int, y as int)),
        {
            a.get(x, y, 0) == FOREGROUND && b.get(x, y, 0) == FOREGROUND
        };
    let out = paint(a.width, a.height, both, Ghost(|x: int, y: int| a.lit(x, y) && b.lit(x, y)));
    proof {
        assert(out.bitmap().on =~= intersect_model(a.bitmap(), b.bitmap()).on);
    }
    out
}

/// The two-stage clean-up: which element removes noise, which one bridges the
/// gaps between strokes, and how often the bridging is applied.
#[derive(Clone, Copy, Debug, PartialEq, Eq, Structural)]
pub struct Cleaner {
    pub noise: Kernel,
    pub bridge: Kernel,
    pub passes: usize,
}

/// The cleaned mask: the pixels of the mask that lie inside the envelope grown
/// from what survives the opening.
pub open spec fn clean_model(b: Bitmap, c: Cleaner) -> Bitmap {
    intersect_model(dilate_times_model(open_model(b, c.noise), c.bridge, c.passes as nat), b)
}

impl Cleaner {
    /// Both elements have at least one cell.
    pub open spec fn wf(&self) -> bool {
        self.noise.wf() && self.bridge.wf()
    }

    /// A 2x2 opening against single-pixel noise, then two passes of a 5x3
    /// dilation to join neighbouring digits.
    pub fn standard() -> (c: Cleaner)
        ensures
            c.wf(),
            c.noise == (Kernel { width: 2, height: 2 }),
            c.bridge == (Kernel { width: 5, height: 3 }),
            c.passes == 2,
    {
        Cleaner {
            noise: Kernel { width: 2, height: 2 },
            bridge: Kernel { width: 5, height: 3 },
            passes: 2,
        }
    }

    /// Removes noise, grows an envelope around what is left and returns the
    /// pixels of `mask` inside that envelope. The envelope only selects: no
    /// pixel is lit in the result that was not lit in `mask`.
    pub fn clean(&self, mask: &Raster) -> (out: Raster)
        requires
            self.wf(),
            mask.is_mask(),
        ensures
            out.is_mask(),
            out.bitmap() == clean_model(mask.bitmap(), *self),
    {
        let opened = open(mask, self.noise);
        let envelope = dilate_times(&opened, self.bridge, self.passes);
        proof {
            lemma_dilate_times_keeps_size(opened.bitmap(), self.bridge, self.passes as nat);
        }
        intersect(&envelope, mask)
    }
}

/// Repeated dilation leaves the size of the grid alone.
pub proof fn lemma_dilate_times_keeps_size(b: Bitmap, k: Kernel, times: nat)
    ensures
        dilate_times_model(b, k, times).width == b.width,
        dilate_times_model(b, k, times).height == b.height,
    decreases times,
{
    if times > 0 {
        lemma_dilate_times_keeps_size(b, k, (times - 1) as nat);
    }
}

/// Cleaning never lights a position that the mask did not light.
pub proof fn lemma_clean_is_subset(b: Bitmap, c: Cleaner)
    ensures
        clean_model(b, c).on.subset_of(b.on),
        clean_model(b, c).width == b.width,
        clean_model(b, c).height == b.height,
{
    lemma_dilate_times_keeps_size(open_model(b, c.noise), c.bridge, c.passes as nat);
}

} // verus!
