//! The mathematical model of a binary mask: a size and the set of positions
//! that are lit.

use vstd::prelude::*;
use crate::color::{BACKGROUND, FOREGROUND};
use crate::raster::Raster;

verus! {

/// A `width` x `height` grid in which the positions of `on` are lit.
pub struct Bitmap {
    pub width: int,
    pub height: int,
    pub on: Set<(int, int)>,
}

impl Bitmap {
    /// `(x, y)` is a position of the grid.
    pub open spec fn contains(self, x: int, y: int) -> bool {
        0 <= x < self.width && 0 <= y < self.height
    }

    /// `(x, y)` is a lit position of the grid.
    pub open spec fn lit(self, x: int, y: int) -> bool {
        self.contains(x, y) && self.on.contains((x, y))
    }

    /// The size is not negative and nothing outside the grid is lit.
    pub open spec fn wf(self) -> bool {
        &&& 0 <= self.width
        &&& 0 <= self.height
        &&& forall|p: (int, int)| #[trigger] self.on.contains(p) ==> self.contains(p.0, p.1)
    }

    /// The grid in which exactly the positions that satisfy `f` are lit.
    pub open spec fn from_fn(width: int, height: int, f: spec_fn(int, int) -> bool) -> Bitmap {
        Bitmap {
            width,
            height,
            on: Set::new(|p: (int, int)| 0 <= p.0 < width && 0 <= p.1 < height && f(p.0, p.1)),
        }
    }
}

impl Raster {
    /// `(x, y)` is a pixel of this raster and holds `FOREGROUND`.
    pub open spec fn lit(&self, x: int, y: int) -> bool {
        self.contains(x, y) && self.px(x, y) == FOREGROUND
    }

    /// A single-channel raster whose pixels are all `FOREGROUND` or `BACKGROUND`.
    pub open spec fn is_mask(&self) -> bool {
        &&& self.wf()
        &&& self.channels == 1
        &&& forall|x: int, y: int|
            self.contains(x, y) ==> #[trigger] self.px(x, y) == FOREGROUND || self.px(x, y)
                == BACKGROUND
    }

    /// The model of a single-channel raster: its size and its foreground pixels.
    pub open spec fn bitmap(&self) -> Bitmap {
        Bitmap {
            width: self.width as int,
            height: self.height as int,
            on: Set::new(|p: (int, int)| self.lit(p.0, p.1)),
        }
    }
}

/// Two masks with the same model hold the same bytes.
pub proof fn lemma_bitmap_determines_mask(a: &Raster, b: &Raster)
    requires
        a.is_mask(),
        b.is_mask(),
        a.bitmap() == b.bitmap(),
    ensures
        a.width == b.width,
        a.height == b.height,
        forall|x: int, y: int| a.contains(x, y) ==> #[trigger] a.px(x, y) == b.px(x, y),
{
    assert forall|x: int, y: int| a.contains(x, y) implies #[trigger] a.px(x, y) == b.px(x, y) by {
        assert(a.bitmap().on.contains((x, y)) == a.lit(x, y));
        assert(b.bitmap().on.contains((x, y)) == b.lit(x, y));
    }
}

/// The model of a mask is well formed.
pub proof fn lemma_bitmap_wf(m: &Raster)
    ensures
        m.bitmap().wf(),
{
}

/// A raster's model is lit exactly where the raster is.
pub proof fn lemma_lit_agrees(src: &Raster, x: int, y: int)
    ensures
        src.bitmap().lit(x, y) == src.lit(x, y),
{
    assert(src.bitmap().on.contains((x, y)) == src.lit(x, y));
}

/// A single-channel raster whose pixels are set by `f` has the model built from `f`.
pub proof fn lemma_painted(out: &Raster, width: int, height: int, f: spec_fn(int, int) -> bool)
    requires
        out.wf(),
        out.channels == 1,
        out.width == width,
        out.height == height,
        forall|x: int, y: int|
            0 <= x < width && 0 <= y < height ==> #[trigger] out.px(x, y) == (if f(x, y) {
                FOREGROUND
            } else {
                BACKGROUND
            }),
    ensures
        out.is_mask(),
        out.bitmap() == Bitmap::from_fn(width, height, f),
{
    let a = out.bitmap();
    let b = Bitmap::from_fn(width, height, f);
    assert forall|p: (int, int)| a.on.contains(p) == b.on.contains(p) by {
        if 0 <= p.0 < width && 0 <= p.1 < height {
            assert(out.px(p.0, p.1) == (if f(p.0, p.1) {
                FOREGROUND
            } else {
                BACKGROUND
            }));
        }
    }
    assert(a.on =~= b.on);
}

/// Builds the mask in which pixel `(x, y)` is lit exactly when `lit(x, y)`
/// says so.
pub(crate) fn paint<F: Fn(usize, usize) -> bool>(
    width: usize,
    height: usize,
    lit: F,
    Ghost(f): Ghost<spec_fn(int, int) -> bool>,
) -> (out: Raster)
    requires
        width * height <= usize::MAX,
        forall|x: usize, y: usize| x < width && y < height ==> #[trigger] call_requires(lit, (x, y)),
        forall|x: usize, y: usize, r: bool|
            x < width && y < height && #[trigger] call_ensures(lit, (x, y), r) ==> r == f(
                x as int,
                y as int,
            ),
    ensures
        out.is_mask(),
        out.width == width,
        out.height == height,
        out.bitmap() == Bitmap::from_fn(width as int, height as int, f),
        forall|x: int, y: int|
            out.contains(x, y) ==> #[trigger] out.px(x, y) == (if f(x, y) {
                FOREGROUND
            } else {
                BACKGROUND
            }),
{
    let mut out = match Raster::new(width, height, 1, BACKGROUND) {
        Some(m) => m,
        None => {
            assert(false);
            Raster { width: 0, height: 0, channels: 1, data: Vec::new() }
        },
    };
    let mut y: usize = 0;
    while y < height
        invariant
            forall|x: usize, y: usize|
                x < width && y < height ==> #[trigger] call_requires(lit, (x, y)),
            forall|x: usize, y: usize, r: bool|
                x < width && y < height && #[trigger] call_ensures(lit, (x, y), r) ==> r == f(
                    x as int,
                    y as int,
                ),
            out.wf(),
            out.channels == 1,
            out.width == width,
            out.height == height,
            y <= height,
            forall|i: int, j: int|
                0 <= i < width && 0 <= j < y ==> #[trigger] out.px(i, j) == (if f(i, j) {
                    FOREGROUND
                } else {
                    BACKGROUND
                }),
        decreases height - y,
    {
        let mut x: usize = 0;
        while x < width
            invariant
                forall|x: usize, y: usize|
                    x < width && y < height ==> #[trigger] call_requires(lit, (x, y)),
                forall|x: usize, y: usize, r: bool|
                    x < width && y < height && #[trigger] call_ensures(lit, (x, y), r) ==> r
                        == f(x as int, y as int),
                out.wf(),
                out.channels == 1,
                out.width == width,
                out.height == height,
                y < height,
                x <= width,
                forall|i: int, j: int|
                    0 <= i < width && 0 <= j < y ==> #[trigger] out.px(i, j) == (if f(i, j) {
                        FOREGROUND
                    } else {
                        BACKGROUND
                    }),
                forall|i: int|
                    0 <= i < x ==> #[trigger] out.px(i, y as int) == (if f(i, y as int) {
                        FOREGROUND
                    } else {
                        BACKGROUND
                    }),
            decreases width - x,
        {
            let value = if lit(x, y) {
                FOREGROUND
            } else {
                BACKGROUND
            };
            out.set(x, y, 0, value);
            x += 1;
        }
        y += 1;
    }
    proof {
        lemma_painted(&out, width as int, height as int, f);
    }
    out
}

} // verus!
