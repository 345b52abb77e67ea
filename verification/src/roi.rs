//! Region-of-interest extraction: the bounding rectangle of the lit pixels,
//! and the crop, inversion, padding and upscaling that turn it into a bitmap
//! fit for recognition.

use vstd::prelude::*;
use crate::bitmap::{lemma_lit_agrees, paint, Bitmap};
use crate::color::FOREGROUND;
use crate::error::ReadError;
use crate::raster::{lemma_size_fits, lemma_smaller_fits, Raster};

verus! {

/// An axis-aligned rectangle of pixels.
#[derive(Clone, Copy, Debug, PartialEq, Eq, Structural)]
pub struct BoundingBox {
    pub x: usize,
    pub y: usize,
    pub width: usize,
    pub height: usize,
}

impl BoundingBox {
    /// The rectangle is not empty and lies inside a `width` x `height` grid.
    pub open spec fn within(&self, width: int, height: int) -> bool {
        &&& self.width > 0
        &&& self.height > 0
        &&& self.x + self.width <= width
        &&& self.y + self.height <= height
    }

    /// `(x, y)` lies inside the rectangle.
    pub open spec fn covers(&self, x: int, y: int) -> bool {
        self.x <= x < self.x + self.width && self.y <= y < self.y + self.height
    }
}

/// `r` is the smallest rectangle that encloses every lit position of `b`:
/// it encloses them all, and each of its four sides touches one.
pub open spec fn is_bounding_box(b: Bitmap, r: BoundingBox) -> bool {
    &&& r.within(b.width, b.height)
    &&& forall|x: int, y: int| #[trigger] b.lit(x, y) ==> r.covers(x, y)
    &&& exists|y: int| #[trigger] b.lit(r.x as int, y)
    &&& exists|y: int| #[trigger] b.lit(r.x + r.width - 1, y)
    &&& exists|x: int| #[trigger] b.lit(x, r.y as int)
    &&& exists|x: int| #[trigger] b.lit(x, r.y + r.height - 1)
}

/// No position of the grid is lit.
pub open spec fn is_dark(b: Bitmap) -> bool {
    forall|x: int, y: int| !#[trigger] b.lit(x, y)
}

/// The bounding rectangle of a grid with a lit position.
pub open spec fn bounding_box(b: Bitmap) -> BoundingBox {
    choose|r: BoundingBox| is_bounding_box(b, r)
}

/// A grid has at most one bounding rectangle.
pub proof fn lemma_bounding_box_unique(b: Bitmap, r1: BoundingBox, r2: BoundingBox)
    requires
        is_bounding_box(b, r1),
        is_bounding_box(b, r2),
    ensures
        r1 == r2,
{
    let y1 = choose|y: int| #[trigger] b.lit(r1.x as int, y);
    let y2 = choose|y: int| #[trigger] b.lit(r2.x as int, y);
    assert(r2.covers(r1.x as int, y1));
    assert(r1.covers(r2.x as int, y2));
    let y3 = choose|y: int| #[trigger] b.lit(r1.x + r1.width - 1, y);
    let y4 = choose|y: int| #[trigger] b.lit(r2.x + r2.width - 1, y);
    assert(r2.covers(r1.x + r1.width - 1, y3));
    assert(r1.covers(r2.x + r2.width - 1, y4));
    let x1 = choose|x: int| #[trigger] b.lit(x, r1.y as int);
    let x2 = choose|x: int| #[trigger] b.lit(x, r2.y as int);
    assert(r2.covers(x1, r1.y as int));
    assert(r1.covers(x2, r2.y as int));
    let x3 = choose|x: int| #[trigger] b.lit(x, r1.y + r1.height - 1);
    let x4 = choose|x: int| #[trigger] b.lit(x, r2.y + r2.height - 1);
    assert(r2.covers(x3, r1.y + r1.height - 1));
    assert(r1.covers(x4, r2.y + r2.height - 1));
}

/// A grid with a bounding rectangle is not dark, and the rectangle is the
/// one that `bounding_box` names.
pub proof fn lemma_bounding_box_is_chosen(b: Bitmap, r: BoundingBox)
    requires
        is_bounding_box(b, r),
    ensures
        bounding_box(b) == r,
        !is_dark(b),
{
    lemma_bounding_box_unique(b, r, bounding_box(b));
    let y = choose|y: int| #[trigger] b.lit(r.x as int, y);
    assert(b.lit(r.x as int, y));
}

/// Finds the bounding rectangle of the lit pixels, or `None` when no pixel is lit.
pub fn bounding_rect(mask: &Raster) -> (out: Option<BoundingBox>)
    requires
        mask.wf(),
        mask.channels == 1,
    ensures
        out is None <==> is_dark(mask.bitmap()),
        out matches Some(r) ==> is_bounding_box(mask.bitmap(), r) && r == bounding_box(
            mask.bitmap(),
        ),
{
    let width = mask.width;
    let height = mask.height;
    let ghost b = mask.bitmap();
    let mut found = false;
    let mut min_x: usize = 0;
    let mut max_x: usize = 0;
    let mut min_y: usize = 0;
    let mut max_y: usize = 0;
    let ghost mut at_left: int = 0;
    let ghost mut at_right: int = 0;
    let ghost mut at_top: int = 0;
    let ghost mut at_bottom: int = 0;
    let mut y: usize = 0;
    while y < height
        invariant
            mask.wf(),
            mask.channels == 1,
            width == mask.width,
            height == mask.height,
            y <= height,
            !found ==> forall|i: int, j: int| 0 <= i < width && 0 <= j < y ==> !#[trigger] mask.lit(
                i,
                j,
            ),
            found ==> {
                &&& min_x <= max_x < width
                &&& min_y <= max_y < y
                &&& mask.lit(min_x as int, at_left)
                &&& mask.lit(max_x as int, at_right)
                &&& mask.lit(at_top, min_y as int)
                &&& mask.lit(at_bottom, max_y as int)
                &&& forall|i: int, j: int|
                    0 <= i < width && 0 <= j < y && #[trigger] mask.lit(i, j) ==> min_x <= i
                        <= max_x && min_y <= j <= max_y
            },
        decreases height - y,
    {
        let mut x: usize = 0;
        while x < width
            invariant
                mask.wf(),
                mask.channels == 1,
                width == mask.width,
                height == mask.height,
                y < height,
                x <= width,
                !found ==> forall|i: int, j: int|
                    0 <= i < width && 0 <= j < y ==> !#[trigger] mask.lit(i, j),
                !found ==> forall|i: int| 0 <= i < x ==> !#[trigger] mask.lit(i, y as int),
                found ==> {
                    &&& min_x <= max_x < width
                    &&& min_y <= max_y <= y
                    &&& mask.lit(min_x as int, at_left)
                    &&& mask.lit(max_x as int, at_right)
                    &&& mask.lit(at_top, min_y as int)
                    &&& mask.lit(at_bottom, max_y as int)
                    &&& forall|i: int, j: int|
                        0 <= i < width && 0 <= j < y && #[trigger] mask.lit(i, j) ==> min_x <= i
                            <= max_x && min_y <= j <= max_y
                    &&& forall|i: int|
                        0 <= i < x && #[trigger] mask.lit(i, y as int) ==> min_x <= i <= max_x
                            && min_y <= y <= max_y
                },
            decreases width - x,
        {
            if mask.get(x, y, 0) == FOREGROUND {
                assert(mask.lit(x as int, y as int));
                if !found {
                    found = true;
                    min_x = x;
                    max_x = x;
                    min_y = y;
                    max_y = y;
                    proof {
                        at_left = y as int;
                        at_right = y as int;
                        at_top = x as int;
                        at_bottom = x as int;
                    }
                } else {
                    if x < min_x {
                        min_x = x;
                        proof {
                            at_left = y as int;
                        }
                    }
                    if x > max_x {
                        max_x = x;
                        proof {
                            at_right = y as int;
                        }
                    }
                    if y > max_y {
                        max_y = y;
                        proof {
                            at_bottom = x as int;
                        }
                    }
                }
            }
            x += 1;
        }
        y += 1;
    }
    if !found {
        proof {
            assert forall|i: int, j: int| !#[trigger] b.lit(i, j) by {
                lemma_lit_agrees(mask, i, j);
                if mask.contains(i, j) {
                    assert(!mask.lit(i, j));
                }
            }
        }
        return None;
    }
    let r = BoundingBox {
        x: min_x,
        y: min_y,
        width: max_x - min_x + 1,
        height: max_y - min_y + 1,
    };
    proof {
        assert forall|i: int, j: int| #[trigger] b.lit(i, j) implies r.covers(i, j) by {
            lemma_lit_agrees(mask, i, j);
            assert(mask.lit(i, j));
        }
        lemma_lit_agrees(mask, min_x as int, at_left);
        lemma_lit_agrees(mask, max_x as int, at_right);
        lemma_lit_agrees(mask, at_top, min_y as int);
        lemma_lit_agrees(mask, at_bottom, max_y as int);
        assert(b.lit(r.x as int, at_left));
        assert(b.lit(r.x + r.width - 1, at_right));
        assert(b.lit(at_top, r.y as int));
        assert(b.lit(at_bottom, r.y + r.height - 1));
        assert(is_bounding_box(b, r));
        lemma_bounding_box_is_chosen(b, r);
    }
    Some(r)
}

/// The part of the grid under the rectangle, moved to the origin.
pub open spec fn crop_model(b: Bitmap, r: BoundingBox) -> Bitmap {
    Bitmap::from_fn(r.width as int, r.height as int, |x: int, y: int| b.lit(r.x + x, r.y + y))
}

/// The grid with lit and unlit exchanged.
pub open spec fn invert_model(b: Bitmap) -> Bitmap {
    Bitmap::from_fn(b.width, b.height, |x: int, y: int| !b.lit(x, y))
}

/// The grid with a lit frame of `border` positions on every side.
pub open spec fn pad_model(b: Bitmap, border: int) -> Bitmap {
    Bitmap::from_fn(
        b.width + 2 * border,
        b.height + 2 * border,
        |x: int, y: int| !b.contains(x - border, y - border) || b.lit(x - border, y - border),
    )
}

/// The grid with every position replaced by a `scale` x `scale` block of
/// itself: position `(x, y)` of the result copies `(x / scale, y / scale)`.
pub open spec fn upscale_model(b: Bitmap, scale: int) -> Bitmap {
    Bitmap::from_fn(b.width * scale, b.height * scale, |x: int, y: int| b.lit(x / scale, y / scale))
}

/// A raster of this size can be allocated.
pub open spec fn fits(width: int, height: int) -> bool {
    width <= usize::MAX && height <= usize::MAX && width * height <= usize::MAX
}

/// Upscaling multiplies both dimensions by the factor exactly, and every
/// position of the result is a copy of the one source position that it lies
/// over: nothing is blended.
pub proof fn lemma_upscale_exact(b: Bitmap, scale: int)
    requires
        b.wf(),
        scale > 0,
    ensures
        upscale_model(b, scale).width == b.width * scale,
        upscale_model(b, scale).height == b.height * scale,
        upscale_model(b, scale).wf(),
        forall|x: int, y: int|
            #![trigger upscale_model(b, scale).contains(x, y)]
            upscale_model(b, scale).contains(x, y) ==> b.contains(x / scale, y / scale)
                && upscale_model(b, scale).lit(x, y) == b.lit(x / scale, y / scale),
{
    let u = upscale_model(b, scale);
    assert(0 <= b.width * scale && 0 <= b.height * scale) by (nonlinear_arith)
        requires
            0 <= b.width,
            0 <= b.height,
            scale > 0,
    ;
    assert forall|x: int, y: int|
        #![trigger u.contains(x, y)]
        u.contains(x, y) implies b.contains(x / scale, y / scale) && u.lit(x, y) == b.lit(
        x / scale,
        y / scale,
    ) by {
        lemma_block_source(x, b.width, scale);
        lemma_block_source(y, b.height, scale);
    }
}

/// Every source position becomes a uniform `scale` x `scale` block of the
/// upscaled grid.
pub proof fn lemma_upscale_blocks(b: Bitmap, scale: int, sx: int, sy: int, dx: int, dy: int)
    requires
        b.contains(sx, sy),
        0 <= dx < scale,
        0 <= dy < scale,
    ensures
        upscale_model(b, scale).contains(sx * scale + dx, sy * scale + dy),
        upscale_model(b, scale).lit(sx * scale + dx, sy * scale + dy) == b.lit(sx, sy),
{
    lemma_block_member(sx, dx, b.width, scale);
    lemma_block_member(sy, dy, b.height, scale);
}

/// A coordinate below `size * scale` lies over a source coordinate below `size`.
pub proof fn lemma_block_source(x: int, size: int, scale: int)
    requires
        0 <= x < size * scale,
        scale > 0,
    ensures
        0 <= x / scale < size,
{
    vstd::arithmetic::div_mod::lemma_fundamental_div_mod(x, scale);
    vstd::arithmetic::div_mod::lemma_mod_bound(x, scale);
    let q = x / scale;
    assert(0 <= q < size) by (nonlinear_arith)
        requires
            x == scale * q + x % scale,
            0 <= x % scale < scale,
            0 <= x < size * scale,
            scale > 0,
    ;
}

/// The `d`-th coordinate of block `s` lies over `s`.
pub proof fn lemma_block_member(s: int, d: int, size: int, scale: int)
    requires
        0 <= s < size,
        0 <= d < scale,
    ensures
        0 <= s * scale + d < size * scale,
        (s * scale + d) / scale == s,
{
    assert(0 <= s * scale + d < size * scale) by (nonlinear_arith)
        requires
            0 <= s < size,
            0 <= d < scale,
    ;
    vstd::arithmetic::div_mod::lemma_fundamental_div_mod_converse(s * scale + d, scale, s, d);
}

/// Cuts the rectangle `r` out of a mask.
pub fn crop(src: &Raster, r: BoundingBox) -> (out: Raster)
    requires
        src.is_mask(),
        r.within(src.width as int, src.height as int),
    ensures
        out.is_mask(),
        out.bitmap() == crop_model(src.bitmap(), r),
        forall|x: int, y: int|
            out.contains(x, y) ==> #[trigger] out.px(x, y) == src.px(r.x + x, r.y + y),
{
    proof {
        lemma_size_fits(src);
        lemma_smaller_fits(
            r.width as int,
            r.height as int,
            1,
            src.width as int,
            src.height as int,
            1,
        );
    }
    let moved = |x: usize, y: usize| -> (lit: bool)
        requires
            x < r.width,
            y < r.height,
        ensures
            lit == src.bitmap().lit(r.x + x, r.y + y),
        {
            proof {
                lemma_lit_agrees(src, r.x + x, r.y + y);
            }
            src.get(r.x + x, r.y + y, 0) == FOREGROUND
        };
    let out = paint(
        r.width,
        r.height,
        moved,
        Ghost(|x: int, y: int| src.bitmap().lit(r.x + x, r.y + y)),
    );
    proof {
        assert forall|x: int, y: int| out.contains(x, y) implies #[trigger] out.px(x, y) == src.px(
            r.x + x,
            r.y + y,
        ) by {
            lemma_lit_agrees(src, r.x + x, r.y + y);
        }
    }
    out
}

/// Exchanges foreground and background, so that light glyphs on a dark field
/// become dark glyphs on a light field.
pub fn invert(src: &Raster) -> (out: Raster)
    requires
        src.is_mask(),
    ensures
        out.is_mask(),
        out.bitmap() == invert_model(src.bitmap()),
        forall|x: int, y: int| out.contains(x, y) ==> #[trigger] out.px(x, y) == 255 - src.px(x, y),
{
    proof {
        lemma_size_fits(src);
    }
    let is_dark = |x: usize, y: usize| -> (lit: bool)
        requires
            x < src.width,
            y < src.height,
        ensures
            lit == !src.bitmap().lit(x as int, y as int),
        {
            proof {
                lemma_lit_agrees(src, x as int, y as int);
            }
            src.get(x, y, 0) != FOREGROUND
        };
    let out = paint(src.width, src.height, is_dark, Ghost(|x: int, y: int| !src.bitmap().lit(x, y)));
    proof {
        assert forall|x: int, y: int| out.contains(x, y) implies #[trigger] out.px(x, y) == 255
            - src.px(x, y) by {
            lemma_lit_agrees(src, x, y);
        }
    }
    out
}

/// Whether a raster of this size can be allocated.
pub fn check_fits(width: usize, height: usize) -> (ok: bool)
    ensures
        ok == fits(width as int, height as int),
{
    width.checked_mul(height).is_some()
}

/// Surrounds a mask with a white frame of `border` pixels on every side.
/// `None` when the padded size cannot be allocated.
pub fn pad(src: &Raster, border: usize) -> (out: Option<Raster>)
    requires
        src.is_mask(),
    ensures
        out is Some <==> fits(src.width + 2 * border, src.height + 2 * border),
        out matches Some(p) ==> p.is_mask() && p.bitmap() == pad_model(
            src.bitmap(),
            border as int,
        ),
{
    let twice = match border.checked_add(border) {
        Some(t) => t,
        None => {
            return None;
        },
    };
    let width = match src.width.checked_add(twice) {
        Some(w) => w,
        None => {
            return None;
        },
    };
    let height = match src.height.checked_add(twice) {
        Some(h) => h,
        None => {
            return None;
        },
    };
    if !check_fits(width, height) {
        return None;
    }
    let framed = |x: usize, y: usize| -> (lit: bool)
        requires
            x < width,
            y < height,
        ensures
            lit == (!src.bitmap().contains(x - border, y - border) || src.bitmap().lit(
                x - border,
                y - border,
            )),
        {
            proof {
                lemma_lit_agrees(src, x - border, y - border);
            }
            let inside = x >= border && x - border < src.width && y >= border && y - border
                < src.height;
            !inside || src.get(x - border, y - border, 0) == FOREGROUND
        };
    Some(
        paint(
            width,
            height,
            framed,
            Ghost(
                |x: int, y: int|
                    !src.bitmap().contains(x - border, y - border) || src.bitmap().lit(
                        x - border,
                        y - border,
                    ),
            ),
        ),
    )
}

/// Enlarges a mask by a whole factor with nearest-neighbour replication.
/// `None` when the enlarged size cannot be allocated.
pub fn upscale(src: &Raster, scale: usize) -> (out: Option<Raster>)
    requires
        src.is_mask(),
        scale > 0,
    ensures
        out is Some <==> fits(src.width * scale, src.height * scale),
        out matches Some(u) ==> {
            &&& u.is_mask()
            &&& u.width == src.width * scale
            &&& u.height == src.height * scale
            &&& u.bitmap() == upscale_model(src.bitmap(), scale as int)
            &&& forall|x: int, y: int|
                u.contains(x, y) ==> #[trigger] u.px(x, y) == src.px(
                    x / scale as int,
                    y / scale as int,
                )
        },
{
    let width = match src.width.checked_mul(scale) {
        Some(w) => w,
        None => {
            return None;
        },
    };
    let height = match src.height.checked_mul(scale) {
        Some(h) => h,
        None => {
            return None;
        },
    };
    if !check_fits(width, height) {
        return None;
    }
    let copied = |x: usize, y: usize| -> (lit: bool)
        requires
            x < width,
            y < height,
        ensures
            lit == src.bitmap().lit(x as int / scale as int, y as int / scale as int),
        {
            proof {
                lemma_block_source(x as int, src.width as int, scale as int);
                lemma_block_source(y as int, src.height as int, scale as int);
                lemma_lit_agrees(src, x as int / scale as int, y as int / scale as int);
            }
            src.get(x / scale, y / scale, 0) == FOREGROUND
        };
    let out = paint(
        width,
        height,
        copied,
        Ghost(|x: int, y: int| src.bitmap().lit(x / scale as int, y / scale as int)),
    );
    proof {
        assert forall|x: int, y: int| out.contains(x, y) implies #[trigger] out.px(x, y) == src.px(
            x / scale as int,
            y / scale as int,
        ) by {
            lemma_block_source(x, src.width as int, scale as int);
            lemma_block_source(y, src.height as int, scale as int);
            lemma_lit_agrees(src, x / scale as int, y / scale as int);
        }
    }
    Some(out)
}

/// How the region of interest is prepared for recognition: the width of the
/// white frame around it, and the whole factor by which it is enlarged.
#[derive(Clone, Copy, Debug, PartialEq, Eq, Structural)]
pub struct Extractor {
    pub border: usize,
    pub scale: usize,
}

/// The bitmap handed to recognition: the bounding rectangle of the lit
/// positions, cut out, inverted to dark on light, framed in white and enlarged.
pub open spec fn glyph_model(b: Bitmap, e: Extractor) -> Bitmap {
    upscale_model(
        pad_model(invert_model(crop_model(b, bounding_box(b))), e.border as int),
        e.scale as int,
    )
}

/// Products of bounded factors are bounded by the product of the bounds.
proof fn lemma_area_monotone(a: int, b: int, c: int, d: int)
    requires
        0 <= a <= c,
        0 <= b <= d,
    ensures
        a * b <= c * d,
{
    assert(a * b <= c * d) by (nonlinear_arith)
        requires
            0 <= a <= c,
            0 <= b <= d,
    ;
}

impl Extractor {
    /// The factor is one of the two that the recogniser is tuned for.
    pub open spec fn wf(&self) -> bool {
        self.scale == 2 || self.scale == 3
    }

    /// The prepared bitmap of a `width` x `height` mask can always be allocated.
    pub open spec fn room_for(&self, width: int, height: int) -> bool {
        fits((width + 2 * self.border) * self.scale, (height + 2 * self.border) * self.scale)
    }

    /// A white frame of ten pixels and a threefold enlargement.
    pub fn standard() -> (e: Extractor)
        ensures
            e.wf(),
            e.border == 10,
            e.scale == 3,
    {
        Extractor { border: 10, scale: 3 }
    }

    /// Decides `room_for`.
    pub fn has_room_for(&self, width: usize, height: usize) -> (ok: bool)
        ensures
            ok == self.room_for(width as int, height as int),
    {
        let twice = match self.border.checked_add(self.border) {
            Some(t) => t,
            None => {
                if self.scale == 0 {
                    assert(self.room_for(width as int, height as int)) by (nonlinear_arith)
                        requires
                            self.scale == 0,
                    ;
                    return true;
                }
                assert((width + 2 * self.border) * self.scale > usize::MAX) by (nonlinear_arith)
                    requires
                        2 * self.border > usize::MAX,
                        self.scale >= 1,
                        width >= 0,
                ;
                return false;
            },
        };
        if self.scale == 0 {
            assert(self.room_for(width as int, height as int)) by (nonlinear_arith)
                requires
                    self.scale == 0,
            ;
            return true;
        }
        let padded_w = match width.checked_add(twice) {
            Some(w) => w,
            None => {
                assert((width + 2 * self.border) * self.scale > usize::MAX) by (nonlinear_arith)
                    requires
                        width + 2 * self.border > usize::MAX,
                        self.scale >= 1,
                ;
                return false;
            },
        };
        let padded_h = match height.checked_add(twice) {
            Some(h) => h,
            None => {
                assert((height + 2 * self.border) * self.scale > usize::MAX) by (nonlinear_arith)
                    requires
                        height + 2 * self.border > usize::MAX,
                        self.scale >= 1,
                ;
                return false;
            },
        };
        let out_w = match padded_w.checked_mul(self.scale) {
            Some(w) => w,
            None => {
                return false;
            },
        };
        let out_h = match padded_h.checked_mul(self.scale) {
            Some(h) => h,
            None => {
                return false;
            },
        };
        check_fits(out_w, out_h)
    }

    /// Cuts the numeral out of a cleaned mask and prepares it for recognition.
    /// Fails with `MaskEmpty` exactly when no pixel of the mask is lit.
    pub fn extract(&self, mask: &Raster) -> (out: Result<Raster, ReadError>)
        requires
            self.wf(),
            mask.is_mask(),
            self.room_for(mask.width as int, mask.height as int),
        ensures
            out is Err <==> is_dark(mask.bitmap()),
            out matches Err(e) ==> e == ReadError::MaskEmpty,
            out matches Ok(g) ==> {
                &&& g.is_mask()
                &&& g.bitmap() == glyph_model(mask.bitmap(), *self)
                &&& g.width == (bounding_box(mask.bitmap()).width + 2 * self.border) * self.scale
                &&& g.height == (bounding_box(mask.bitmap()).height + 2 * self.border)
                    * self.scale
            },
    {
        let r = match bounding_rect(mask) {
            Some(r) => r,
            None => {
                return Err(ReadError::MaskEmpty);
            },
        };
        let cut = crop(mask, r);
        let dark_on_light = invert(&cut);
        proof {
            let b = self.border as int;
            let s = self.scale as int;
            let (rw, rh) = (r.width as int, r.height as int);
            let (w, h) = (mask.width as int, mask.height as int);
            lemma_area_monotone(rw + 2 * b, 1, w + 2 * b, s);
            lemma_area_monotone(rh + 2 * b, 1, h + 2 * b, s);
            lemma_area_monotone(rw + 2 * b, s, w + 2 * b, s);
            lemma_area_monotone(rh + 2 * b, s, h + 2 * b, s);
            lemma_area_monotone(rw + 2 * b, rh + 2 * b, (w + 2 * b) * s, (h + 2 * b) * s);
            lemma_area_monotone(
                (rw + 2 * b) * s,
                (rh + 2 * b) * s,
                (w + 2 * b) * s,
                (h + 2 * b) * s,
            );
        }
        let framed = match pad(&dark_on_light, self.border) {
            Some(p) => p,
            None => {
                assert(false);
                return Err(ReadError::MaskEmpty);
            },
        };
        match upscale(&framed, self.scale) {
            Some(g) => Ok(g),
            None => {
                assert(false);
                Err(ReadError::MaskEmpty)
            },
        }
    }
}

} // verus!
