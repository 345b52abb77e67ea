//! What is decided about a capture once the window system has answered:
//! which window is the target, and which pixels of its image are the region.

use vstd::prelude::*;
use crate::error::ReadError;
use crate::raster::{lemma_size_fits, lemma_smaller_fits, Raster};

verus! {

/// A rectangle of a window, in pixels from its top left corner.
#[derive(Clone, Copy, Debug, PartialEq, Eq, Structural)]
pub struct ScreenRegion {
    pub x: u32,
    pub y: u32,
    pub width: u32,
    pub height: u32,
}

impl ScreenRegion {
    /// The region is not empty.
    pub open spec fn wf(&self) -> bool {
        self.width > 0 && self.height > 0
    }

    /// The region is not empty and lies inside a `width` x `height` image.
    pub open spec fn within(&self, width: int, height: int) -> bool {
        &&& self.wf()
        &&& self.x + self.width <= width
        &&& self.y + self.height <= height
    }
}

/// What the window system reports of one top-level window.
#[derive(Debug)]
pub struct WindowInfo {
    pub title: String,
    pub minimized: bool,
}

impl WindowInfo {
    /// The window carries the wanted title and is not minimized.
    pub open spec fn shows(&self, title: Seq<char>) -> bool {
        self.title@ == title && !self.minimized
    }
}

/// The title of the game's window.
pub open spec fn game_title() -> Seq<char> {
    "Path of Exile 2"@
}

/// `index` is the first window of the list that shows `title`.
pub open spec fn is_first_showing(windows: Seq<WindowInfo>, title: Seq<char>, index: int) -> bool {
    &&& 0 <= index < windows.len()
    &&& windows[index].shows(title)
    &&& forall|j: int| 0 <= j < index ==> !(#[trigger] windows[j]).shows(title)
}

/// No window of the list shows `title`.
pub open spec fn none_showing(windows: Seq<WindowInfo>, title: Seq<char>) -> bool {
    forall|j: int| 0 <= j < windows.len() ==> !(#[trigger] windows[j]).shows(title)
}

/// Whether two texts hold the same characters.
pub fn same_text(a: &str, b: &str) -> (same: bool)
    ensures
        same == (a@ == b@),
{
    let n = a.unicode_len();
    if n != b.unicode_len() {
        return false;
    }
    let mut i: usize = 0;
    while i < n
        invariant
            n == a@.len(),
            n == b@.len(),
            i <= n,
            forall|k: int| 0 <= k < i ==> a@[k] == b@[k],
        decreases n - i,
    {
        if a.get_char(i) != b.get_char(i) {
            return false;
        }
        i += 1;
    }
    assert(a@ =~= b@);
    true
}

/// Picks the window to capture: the first in the order of the list whose
/// title is exactly `app_title` and which is not minimized.
/// `WindowNotFound` exactly when the list holds no such window.
pub fn capture_region_from_application(windows: &Vec<WindowInfo>, app_title: &str) -> (out: Result<
    usize,
    ReadError,
>)
    ensures
        out matches Ok(index) ==> is_first_showing(windows@, app_title@, index as int),
        out matches Err(e) ==> e == ReadError::WindowNotFound && none_showing(
            windows@,
            app_title@,
        ),
{
    let mut i: usize = 0;
    while i < windows.len()
        invariant
            i <= windows@.len(),
            forall|j: int| 0 <= j < i ==> !(#[trigger] windows@[j]).shows(app_title@),
        decreases windows@.len() - i,
    {
        let window = &windows[i];
        if !window.minimized && same_text(window.title.as_str(), app_title) {
            return Ok(i);
        }
        i += 1;
    }
    Err(ReadError::WindowNotFound)
}

/// Picks the game's window.
pub fn capture_region_from_poe2(windows: &Vec<WindowInfo>) -> (out: Result<usize, ReadError>)
    ensures
        out matches Ok(index) ==> is_first_showing(windows@, game_title(), index as int),
        out matches Err(e) ==> e == ReadError::WindowNotFound && none_showing(
            windows@,
            game_title(),
        ),
{
    capture_region_from_application(windows, "Path of Exile 2")
}

/// `frame` is the region of `image`, cut out and reduced to the first three
/// channels of every pixel.
pub open spec fn is_region_of(frame: &Raster, image: &Raster, region: ScreenRegion) -> bool {
    &&& frame.wf()
    &&& frame.channels == 3
    &&& frame.width == region.width
    &&& frame.height == region.height
    &&& forall|x: int, y: int, c: int|
        frame.contains(x, y) && 0 <= c < 3 ==> #[trigger] frame.at(x, y, c) == image.at(
            region.x + x,
            region.y + y,
            c,
        )
}

/// Cuts the region out of a window's image and drops every channel after the
/// third, the alpha channel of a capture.
/// `CaptureFailure` exactly when the region is empty or leaves the image.
pub fn capture_region(image: &Raster, region: ScreenRegion) -> (out: Result<Raster, ReadError>)
    requires
        image.wf(),
        image.channels >= 3,
    ensures
        out is Ok <==> region.within(image.width as int, image.height as int),
        out matches Err(e) ==> e == ReadError::CaptureFailure,
        out matches Ok(frame) ==> is_region_of(&frame, image, region),
{
    let left = region.x as usize;
    let top = region.y as usize;
    let width = region.width as usize;
    let height = region.height as usize;
    if width == 0 || height == 0 || left > image.width || width > image.width - left || top
        > image.height || height > image.height - top {
        return Err(ReadError::CaptureFailure);
    }
    proof {
        lemma_size_fits(image);
        lemma_smaller_fits(
            width as int,
            height as int,
            3,
            image.width as int,
            image.height as int,
            image.channels as int,
        );
    }
    let mut frame = match Raster::new(width, height, 3, 0) {
        Some(f) => f,
        None => {
            assert(false);
            return Err(ReadError::CaptureFailure);
        },
    };
    let mut y: usize = 0;
    while y < height
        invariant
            image.wf(),
            image.channels >= 3,
            left + width <= image.width,
            top + height <= image.height,
            left == region.x,
            top == region.y,
            frame.wf(),
            frame.channels == 3,
            frame.width == width,
            frame.height == height,
            y <= height,
            forall|i: int, j: int, k: int|
                0 <= i < width && 0 <= j < y && 0 <= k < 3 ==> #[trigger] frame.at(i, j, k)
                    == image.at(left + i, top + j, k),
        decreases height - y,
    {
        let mut x: usize = 0;
        while x < width
            invariant
                image.wf(),
                image.channels >= 3,
                left + width <= image.width,
                top + height <= image.height,
                left == region.x,
                top == region.y,
                frame.wf(),
                frame.channels == 3,
                frame.width == width,
                frame.height == height,
                y < height,
                x <= width,
                forall|i: int, j: int, k: int|
                    0 <= i < width && 0 <= j < y && 0 <= k < 3 ==> #[trigger] frame.at(i, j, k)
                        == image.at(left + i, top + j, k),
                forall|i: int, k: int|
                    0 <= i < x && 0 <= k < 3 ==> #[trigger] frame.at(i, y as int, k) == image.at(
                        left + i,
                        top + y,
                        k,
                    ),
            decreases width - x,
        {
            frame.set(x, y, 0, image.get(left + x, top + y, 0));
            frame.set(x, y, 1, image.get(left + x, top + y, 1));
            frame.set(x, y, 2, image.get(left + x, top + y, 2));
            x += 1;
        }
        y += 1;
    }
    Ok(frame)
}

} // verus!
