//! The pipeline from a captured frame to a reading, and the fail-soft policy
//! that turns every failure into a reading of zero.

use vstd::prelude::*;
use crate::bitmap::{lemma_bitmap_determines_mask, Bitmap};
use crate::capture::{
    capture_region, capture_region_from_application, game_title, is_first_showing, is_region_of,
    none_showing, ScreenRegion, WindowInfo,
};
use crate::color::{hsv_at, threshold, threshold_model, ColorRange, Hsv};
use crate::error::ReadError;
use crate::morph::{clean_model, lemma_clean_is_subset, Cleaner, Kernel};
use crate::raster::Raster;
use crate::recognize::{
    is_comma, is_digit, is_space, lemma_blank_is_unparseable,
    lemma_stray_character_is_unparseable, parse_reading, read_mask,
};
use crate::roi::{glyph_model, is_dark, Extractor};
use crate::shape::shape_admits;

verus! {

/// The reading reported when nothing could be read.
pub const NO_READING: u32 = 0;

/// A pixel buffer as it arrives from outside: a size and the bytes, row by
/// row, channel after channel. Nothing is known of it until it is checked.
#[derive(Debug)]
pub struct RawFrame {
    pub width: u32,
    pub height: u32,
    pub pixels: Vec<u8>,
}

impl RawFrame {
    /// The bytes are exactly those of a `width` x `height` image with
    /// `channels` channels.
    pub open spec fn admits(&self, channels: int) -> bool {
        shape_admits(self.height as int, self.width as int, channels, self.pixels@.len() as int)
    }

    /// The frame read as a raster with `channels` channels.
    pub open spec fn raster(&self, channels: usize) -> Raster {
        Raster {
            width: self.width as usize,
            height: self.height as usize,
            channels,
            data: self.pixels,
        }
    }
}

/// The configuration of one meter: the colour of the numerals, the clean-up,
/// the preparation of the region of interest, and the window to watch.
#[derive(Debug)]
pub struct Pipeline {
    pub range: ColorRange,
    pub cleaner: Cleaner,
    pub extractor: Extractor,
    pub target: String,
}

/// What has just happened outside the library.
#[derive(Debug)]
pub enum Event {
    /// A new tick begins.
    Start,
    /// The window system has listed its top-level windows.
    Windows(Vec<WindowInfo>),
    /// The chosen window has been captured, four channels per pixel, and the
    /// region to read has been laid out on it.
    Image(RawFrame, ScreenRegion),
    /// The region has been converted to hue, saturation and value.
    Converted(RawFrame),
    /// The recognition engine has returned its text.
    Recognized(String),
    /// The step that was asked for could not be performed.
    Failed(Step),
}

/// The steps that are performed outside the library.
#[derive(Clone, Copy, Debug, PartialEq, Eq, Structural)]
pub enum Step {
    /// Listing the top-level windows.
    ListWindows,
    /// Capturing the chosen window.
    CaptureWindow,
    /// Converting the region to hue, saturation and value.
    Convert,
    /// Recognising the text of the bitmap.
    Recognize,
}

impl Step {
    /// What the failure of a step counts as: the engine's failure is its
    /// own, everything before it is a failure to capture.
    pub open spec fn failure(self) -> ReadError {
        match self {
            Step::ListWindows => ReadError::CaptureFailure,
            Step::CaptureWindow => ReadError::CaptureFailure,
            Step::Convert => ReadError::CaptureFailure,
            Step::Recognize => ReadError::OcrFailure,
        }
    }

    /// Computes `failure`.
    pub fn classify(self) -> (e: ReadError)
        ensures
            e == self.failure(),
    {
        match self {
            Step::Recognize => ReadError::OcrFailure,
            _ => ReadError::CaptureFailure,
        }
    }
}

/// What has to happen next outside the library.
#[derive(Debug)]
pub enum Action {
    /// List the top-level windows.
    ListWindows,
    /// Capture the window with this position in the list.
    CaptureWindow(usize),
    /// Convert this three-channel frame to hue, saturation and value.
    Convert(Raster),
    /// Recognise the text of this bitmap, dark on light.
    Recognize(Raster),
    /// The tick is over: hand `reading` to the caller. `cause` says why it is
    /// zero when nothing was read.
    Report { reading: u32, cause: Option<ReadError> },
}

/// The reading of a tick that failed with `e`.
pub open spec fn soft(e: ReadError) -> (u32, Option<ReadError>) {
    (NO_READING, Some(e))
}

impl Action {
    /// The action ends the tick with this reading and this cause.
    pub open spec fn reports(&self, outcome: (u32, Option<ReadError>)) -> bool {
        self matches Action::Report { reading, cause } && reading == outcome.0 && cause
            == outcome.1
    }

    /// The action ends the tick without a reading, because of `e`.
    pub open spec fn gives_up(&self, e: ReadError) -> bool {
        self.reports(soft(e))
    }
}

impl Pipeline {
    /// Every part of the configuration is valid and a window is named.
    pub open spec fn wf(&self) -> bool {
        &&& self.range.wf()
        &&& self.cleaner.wf()
        &&& self.extractor.wf()
        &&& self.target@.len() > 0
    }

    /// The meter of the game: its text palette, the standard clean-up and
    /// preparation, and the game's window.
    pub fn standard() -> (p: Pipeline)
        ensures
            p.wf(),
            p.range == (ColorRange {
                min: Hsv { h: 0, s: 0, v: 104 },
                max: Hsv { h: 165, s: 13, v: 255 },
            }),
            p.cleaner == (Cleaner {
                noise: Kernel { width: 2, height: 2 },
                bridge: Kernel { width: 5, height: 3 },
                passes: 2,
            }),
            p.extractor == (Extractor { border: 10, scale: 3 }),
            p.target@ == game_title(),
    {
        proof {
            reveal_strlit("Path of Exile 2");
        }
        Pipeline {
            range: ColorRange::text(),
            cleaner: Cleaner::standard(),
            extractor: Extractor::standard(),
            target: "Path of Exile 2".to_owned(),
        }
    }

    /// Decides `wf`.
    pub fn check(&self) -> (ok: bool)
        ensures
            ok == self.wf(),
    {
        let range_ok = self.range.min.h <= self.range.max.h && self.range.min.s
            <= self.range.max.s && self.range.min.v <= self.range.max.v;
        let cleaner_ok = self.cleaner.noise.width > 0 && self.cleaner.noise.height > 0
            && self.cleaner.bridge.width > 0 && self.cleaner.bridge.height > 0;
        let extractor_ok = self.extractor.scale == 2 || self.extractor.scale == 3;
        range_ok && cleaner_ok && extractor_ok && self.target.as_str().unicode_len() > 0
    }

    /// The cleaned mask of a frame in hue, saturation and value.
    pub open spec fn segment(&self, frame: RawFrame) -> Bitmap {
        clean_model(threshold_model(&frame.raster(3), self.range), self.cleaner)
    }

    /// A frame that can be processed: its bytes match its size, and the
    /// prepared bitmap of any part of it can be allocated.
    pub open spec fn accepts(&self, frame: RawFrame) -> bool {
        frame.admits(3) && self.extractor.room_for(frame.width as int, frame.height as int)
    }

    /// What the mask stage makes of a frame.
    pub open spec fn mask_outcome(&self, frame: RawFrame) -> Result<Bitmap, ReadError> {
        if !self.accepts(frame) {
            Err(ReadError::CaptureFailure)
        } else if is_dark(self.segment(frame)) {
            Err(ReadError::MaskEmpty)
        } else {
            Ok(glyph_model(self.segment(frame), self.extractor))
        }
    }

    /// Segments the numeral of a hue/saturation/value frame and prepares it
    /// for recognition: threshold, clean-up, bounding rectangle, crop,
    /// inversion, white frame, enlargement.
    ///
    /// `CaptureFailure` when the frame's bytes do not match its size or the
    /// result could not be allocated, `MaskEmpty` when no numeral shows.
    pub fn get_mask(&self, frame: RawFrame) -> (out: Result<Raster, ReadError>)
        requires
            self.wf(),
        ensures
            out matches Ok(glyph) ==> glyph.is_mask() && self.mask_outcome(frame) == Ok::<
                Bitmap,
                ReadError,
            >(glyph.bitmap()),
            out matches Err(e) ==> self.mask_outcome(frame) == Err::<Bitmap, ReadError>(e),
    {
        let ghost model = threshold_model(&frame.raster(3), self.range);
        let width = frame.width as usize;
        let height = frame.height as usize;
        let hsv = match Raster::from_bytes(width, height, 3, frame.pixels) {
            Ok(r) => r,
            Err(e) => {
                return Err(e);
            },
        };
        if !self.extractor.has_room_for(width, height) {
            return Err(ReadError::CaptureFailure);
        }
        let mask = threshold(&hsv, &self.range);
        proof {
            let a = threshold_model(&hsv, self.range);
            assert(hsv.data@ == frame.raster(3).data@);
            assert(a.on =~= model.on);
        }
        let cleaned = self.cleaner.clean(&mask);
        proof {
            lemma_clean_is_subset(mask.bitmap(), self.cleaner);
        }
        self.extractor.extract(&cleaned)
    }
}

impl Pipeline {
    /// `action` is what the pipeline answers to `event`.
    ///
    /// Every failure, whether a step outside could not be performed or a
    /// stage found it, ends the tick with a reading of zero and its cause;
    /// only a text that parses ends it with the parsed number.
    pub open spec fn follows(&self, event: Event, action: Action) -> bool {
        match event {
            Event::Start => action is ListWindows,
            Event::Windows(windows) => if none_showing(windows@, self.target@) {
                action.gives_up(ReadError::WindowNotFound)
            } else {
                action matches Action::CaptureWindow(index) && is_first_showing(
                    windows@,
                    self.target@,
                    index as int,
                )
            },
            Event::Image(image, region) => if image.admits(4) && region.within(
                image.width as int,
                image.height as int,
            ) {
                action matches Action::Convert(frame) && is_region_of(
                    &frame,
                    &image.raster(4),
                    region,
                )
            } else {
                action.gives_up(ReadError::CaptureFailure)
            },
            Event::Converted(frame) => match self.mask_outcome(frame) {
                Ok(bitmap) => action matches Action::Recognize(glyph) && glyph.is_mask()
                    && glyph.bitmap() == bitmap,
                Err(e) => action.gives_up(e),
            },
            Event::Recognized(text) => match parse_reading(text@) {
                Some(value) => action.reports((value, None)),
                None => action.gives_up(ReadError::UnparseableResult),
            },
            Event::Failed(step) => action.gives_up(step.failure()),
        }
    }
}

/// Ends the tick without a reading.
fn give_up(e: ReadError) -> (action: Action)
    ensures
        action.gives_up(e),
{
    Action::Report { reading: NO_READING, cause: Some(e) }
}

/// One step of a tick: takes what has just happened and says what to do next.
///
/// The caller starts a tick with `Event::Start`, performs each action that is
/// returned and hands its result back as the next event, until the action is
/// `Report`. The function never fails: whatever goes wrong ends the tick with
/// a reading of zero.
pub fn read_damage(pipeline: &Pipeline, event: Event) -> (action: Action)
    requires
        pipeline.wf(),
    ensures
        pipeline.follows(event, action),
{
    match event {
        Event::Start => Action::ListWindows,
        Event::Windows(windows) => {
            match capture_region_from_application(&windows, pipeline.target.as_str()) {
                Ok(index) => {
                    assert(windows@[index as int].shows(pipeline.target@));
                    Action::CaptureWindow(index)
                },
                Err(e) => give_up(e),
            }
        },
        Event::Image(image, region) => {
            let width = image.width as usize;
            let height = image.height as usize;
            let raster = match Raster::from_bytes(width, height, 4, image.pixels) {
                Ok(r) => r,
                Err(e) => {
                    return give_up(e);
                },
            };
            match capture_region(&raster, region) {
                Ok(frame) => {
                    assert(is_region_of(&frame, &image.raster(4), region));
                    Action::Convert(frame)
                },
                Err(e) => give_up(e),
            }
        },
        Event::Converted(frame) => {
            match pipeline.get_mask(frame) {
                Ok(glyph) => Action::Recognize(glyph),
                Err(e) => give_up(e),
            }
        },
        Event::Recognized(text) => {
            match read_mask(text.as_str()) {
                Ok(value) => Action::Report { reading: value, cause: None },
                Err(e) => give_up(e),
            }
        },
        Event::Failed(step) => give_up(step.classify()),
    }
}

/// Two rasters of the same shape with the same bytes in every pixel.
pub open spec fn same_pixels(a: &Raster, b: &Raster) -> bool {
    &&& a.same_shape(b)
    &&& forall|x: int, y: int, c: int|
        a.contains(x, y) && 0 <= c < a.channels ==> #[trigger] a.at(x, y, c) == b.at(x, y, c)
}

/// Two actions that ask for the same thing.
pub open spec fn same_answer(a: Action, b: Action) -> bool {
    match (a, b) {
        (Action::ListWindows, Action::ListWindows) => true,
        (Action::CaptureWindow(i), Action::CaptureWindow(j)) => i == j,
        (Action::Convert(f), Action::Convert(g)) => same_pixels(&f, &g),
        (Action::Recognize(f), Action::Recognize(g)) => same_pixels(&f, &g),
        (
            Action::Report { reading: r1, cause: c1 },
            Action::Report { reading: r2, cause: c2 },
        ) => r1 == r2 && c1 == c2,
        _ => false,
    }
}

/// The pipeline is deterministic: whatever it answers to an event, it answers
/// the same to the same event again, down to the last pixel and the reading.
pub proof fn lemma_tick_is_determined(p: Pipeline, event: Event, a: Action, b: Action)
    requires
        p.follows(event, a),
        p.follows(event, b),
    ensures
        same_answer(a, b),
{
    match event {
        Event::Windows(windows) => {
            if !none_showing(windows@, p.target@) {
                let i = a->CaptureWindow_0;
                let j = b->CaptureWindow_0;
                assert(windows@[i as int].shows(p.target@));
                assert(windows@[j as int].shows(p.target@));
            }
        },
        Event::Converted(frame) => {
            if p.mask_outcome(frame) is Ok {
                let f = a->Recognize_0;
                let g = b->Recognize_0;
                lemma_bitmap_determines_mask(&f, &g);
            }
        },
        _ => {},
    }
}

/// A failure never reaches the caller: an action that ends the tick with a
/// cause ends it with a reading of zero.
pub proof fn lemma_failure_reads_zero(p: Pipeline, event: Event, action: Action)
    requires
        p.follows(event, action),
        action matches Action::Report { cause, .. } && cause is Some,
    ensures
        action matches Action::Report { reading, .. } && reading == NO_READING,
{
}

/// A frame in which no pixel has the colour of the numerals yields no mask,
/// and the tick ends with a reading of zero.
pub proof fn lemma_no_text_reads_zero(p: Pipeline, frame: RawFrame, action: Action)
    requires
        p.follows(Event::Converted(frame), action),
        forall|x: int, y: int|
            0 <= x < frame.width && 0 <= y < frame.height ==> !p.range.includes(
                #[trigger] hsv_at(&frame.raster(3), x, y),
            ),
    ensures
        p.accepts(frame) ==> p.mask_outcome(frame) == Err::<Bitmap, ReadError>(
            ReadError::MaskEmpty,
        ),
        action matches Action::Report { reading, cause } && reading == NO_READING && cause
            is Some,
{
    let t = threshold_model(&frame.raster(3), p.range);
    lemma_clean_is_subset(t, p.cleaner);
    assert forall|x: int, y: int| !#[trigger] p.segment(frame).lit(x, y) by {
        if p.segment(frame).lit(x, y) {
            assert(t.on.contains((x, y)));
            assert(p.range.includes(hsv_at(&frame.raster(3), x, y)));
        }
    }
}

/// A recognised text that is empty, or holds a character that is neither a
/// digit, a comma nor white space, ends the tick with a reading of zero.
pub proof fn lemma_malformed_text_reads_zero(p: Pipeline, text: String, action: Action)
    requires
        p.follows(Event::Recognized(text), action),
        text@.len() == 0 || exists|i: int|
            0 <= i < text@.len() && !is_digit(#[trigger] text@[i]) && !is_comma(text@[i])
                && !is_space(text@[i]),
    ensures
        parse_reading(text@) is None,
        action.gives_up(ReadError::UnparseableResult),
{
    if text@.len() == 0 {
        lemma_blank_is_unparseable(text@);
    } else {
        let i = choose|i: int|
            0 <= i < text@.len() && !is_digit(#[trigger] text@[i]) && !is_comma(text@[i])
                && !is_space(text@[i]);
        lemma_stray_character_is_unparseable(text@, i);
    }
}

} // verus!
