use dps_meter::capture::{ScreenRegion, WindowInfo};
use dps_meter::capture::capture_region_from_application;
use dps_meter::color::{ColorRange, Hsv};
use dps_meter::error::ReadError;
use dps_meter::morph::{Cleaner, Kernel};
use dps_meter::pipeline::{read_damage, Action, Event, Pipeline, RawFrame, Step, NO_READING};
use dps_meter::recognize::read_mask;
use dps_meter::roi::Extractor;

const INK: (u8, u8, u8) = (0, 0, 255);
const GRAY_INK: (u8, u8, u8) = (90, 10, 110);
const FIELD: (u8, u8, u8) = (100, 180, 60);

fn hsv_frame(rows: &[&str], ink: (u8, u8, u8)) -> RawFrame {
    let height = rows.len();
    let width = if height == 0 { 0 } else { rows[0].len() };
    let mut pixels = Vec::new();
    for row in rows {
        assert_eq!(row.len(), width);
        for c in row.chars() {
            let p = if c == '#' { ink } else { FIELD };
            pixels.push(p.0);
            pixels.push(p.1);
            pixels.push(p.2);
        }
    }
    RawFrame { width: width as u32, height: height as u32, pixels }
}

// Three ring-shaped glyphs with strokes two pixels thick.
fn strokes() -> Vec<&'static str> {
    vec![
        "..............................",
        "..............................",
        "...######...######...######...",
        "...######...######...######...",
        "...##..##...##..##...##..##...",
        "...##..##...##..##...##..##...",
        "...##..##...##..##...##..##...",
        "...######...######...######...",
        "...######...######...######...",
        "..............................",
        "..............................",
    ]
}

fn reading_of(action: Action) -> (u32, Option<ReadError>) {
    match action {
        Action::Report { reading, cause } => (reading, cause),
        other => panic!("the tick is not over: {:?}", other),
    }
}

#[test]
fn standard_pipeline_is_the_game_meter() {
    let p = Pipeline::standard();
    assert!(p.check());
    assert_eq!(p.range, ColorRange { min: Hsv { h: 0, s: 0, v: 104 }, max: Hsv { h: 165, s: 13, v: 255 } });
    assert_eq!(
        p.cleaner,
        Cleaner { noise: Kernel { width: 2, height: 2 }, bridge: Kernel { width: 5, height: 3 }, passes: 2 }
    );
    assert_eq!(p.extractor, Extractor { border: 10, scale: 3 });
    assert_eq!(p.target, "Path of Exile 2");
    assert_eq!(NO_READING, 0);
}

#[test]
fn check_refuses_an_invalid_configuration() {
    let mut p = Pipeline::standard();
    p.extractor.scale = 4;
    assert!(!p.check());
    let mut p = Pipeline::standard();
    p.extractor.scale = 2;
    assert!(p.check());
    let mut p = Pipeline::standard();
    p.target = String::new();
    assert!(!p.check());
    let mut p = Pipeline::standard();
    p.cleaner.bridge.height = 0;
    assert!(!p.check());
    let mut p = Pipeline::standard();
    p.range.min.v = 255;
    p.range.max.v = 254;
    assert!(!p.check());
}

#[test]
fn get_mask_prepares_the_numeral() {
    let p = Pipeline::standard();
    let glyph = p.get_mask(hsv_frame(&strokes(), INK)).unwrap();
    // The strokes span columns 3..=26 and rows 2..=8.
    assert_eq!(glyph.width, (24 + 20) * 3);
    assert_eq!(glyph.height, (7 + 20) * 3);
    assert_eq!(glyph.channels, 1);
    // The frame is white, the strokes are dark.
    assert_eq!(glyph.get(0, 0, 0), 255);
    assert_eq!(glyph.get(29, 29, 0), 255);
    assert_eq!(glyph.get(30, 30, 0), 0);
    assert_eq!(glyph.get(35, 44, 0), 0);
    assert_eq!(glyph.get(36, 30, 0), 0);
    assert_eq!(glyph.get(36, 36, 0), 255);
    assert_eq!(glyph.get(glyph.width - 31, glyph.height - 31, 0), 0);
    assert_eq!(glyph.get(glyph.width - 30, glyph.height - 31, 0), 255);
    for v in glyph.data.iter() {
        assert!(*v == 0 || *v == 255);
    }
}

#[test]
fn get_mask_copies_the_strokes_pixel_by_pixel() {
    let rows = strokes();
    let p = Pipeline::standard();
    let glyph = p.get_mask(hsv_frame(&rows, INK)).unwrap();
    for y in 0..7usize {
        for x in 0..24usize {
            let lit = rows[y + 2].as_bytes()[x + 3] == b'#';
            for dy in 0..3 {
                for dx in 0..3 {
                    let v = glyph.get((x + 10) * 3 + dx, (y + 10) * 3 + dy, 0);
                    assert_eq!(v, if lit { 0 } else { 255 });
                }
            }
        }
    }
}

#[test]
fn get_mask_drops_strokes_too_thin_and_too_far() {
    // A hairline does not survive the opening; far from any solid stroke it
    // is outside every envelope and does not count towards the rectangle.
    let rows = vec![
        "..........................",
        "..##................#.....",
        "..##................#.....",
        "..........................",
    ];
    let glyph = Pipeline::standard().get_mask(hsv_frame(&rows, INK)).unwrap();
    assert_eq!((glyph.width, glyph.height), ((2 + 20) * 3, (2 + 20) * 3));
}

#[test]
fn get_mask_reports_an_empty_mask() {
    let p = Pipeline::standard();
    let rows = vec!["........"; 6];
    assert_eq!(p.get_mask(hsv_frame(&rows, INK)).err(), Some(ReadError::MaskEmpty));
}

#[test]
fn get_mask_refuses_a_frame_whose_bytes_do_not_match() {
    let p = Pipeline::standard();
    let mut frame = hsv_frame(&strokes(), INK);
    frame.pixels.pop();
    assert_eq!(p.get_mask(frame).err(), Some(ReadError::CaptureFailure));
    let mut frame = hsv_frame(&strokes(), INK);
    frame.width += 1;
    assert_eq!(p.get_mask(frame).err(), Some(ReadError::CaptureFailure));
}

#[test]
fn get_mask_of_an_empty_frame_is_empty() {
    let p = Pipeline::standard();
    let frame = RawFrame { width: 0, height: 0, pixels: Vec::new() };
    assert_eq!(p.get_mask(frame).err(), Some(ReadError::MaskEmpty));
}

#[test]
fn a_tick_runs_from_start_to_report() {
    let p = Pipeline::standard();
    assert!(matches!(read_damage(&p, Event::Start), Action::ListWindows));

    let windows = vec![
        WindowInfo { title: "Files".to_string(), minimized: false },
        WindowInfo { title: "Path of Exile 2".to_string(), minimized: false },
    ];
    match read_damage(&p, Event::Windows(windows)) {
        Action::CaptureWindow(index) => assert_eq!(index, 1),
        other => panic!("unexpected {:?}", other),
    }

    let mut pixels = Vec::new();
    for i in 0..(6 * 4) {
        pixels.extend_from_slice(&[i as u8, 50 + i as u8, 100 + i as u8, 255]);
    }
    let image = RawFrame { width: 6, height: 4, pixels };
    let region = ScreenRegion { x: 2, y: 1, width: 3, height: 2 };
    match read_damage(&p, Event::Image(image, region)) {
        Action::Convert(frame) => {
            assert_eq!((frame.width, frame.height, frame.channels), (3, 2, 3));
            assert_eq!(
                frame.data,
                vec![8, 58, 108, 9, 59, 109, 10, 60, 110, 14, 64, 114, 15, 65, 115, 16, 66, 116]
            );
        },
        other => panic!("unexpected {:?}", other),
    }

    match read_damage(&p, Event::Converted(hsv_frame(&strokes(), INK))) {
        Action::Recognize(glyph) => {
            assert_eq!((glyph.width, glyph.height), (132, 81));
        },
        other => panic!("unexpected {:?}", other),
    }

    let action = read_damage(&p, Event::Recognized("19,950\n".to_string()));
    assert_eq!(reading_of(action), (19950, None));
}

#[test]
fn a_missing_window_reads_zero() {
    let p = Pipeline::standard();
    let action = read_damage(&p, Event::Windows(Vec::new()));
    assert_eq!(reading_of(action), (0, Some(ReadError::WindowNotFound)));
    let windows = vec![WindowInfo { title: "Path of Exile 2".to_string(), minimized: true }];
    let action = read_damage(&p, Event::Windows(windows));
    assert_eq!(reading_of(action), (0, Some(ReadError::WindowNotFound)));
}

#[test]
fn the_target_of_the_pipeline_is_the_one_looked_for() {
    let mut p = Pipeline::standard();
    p.target = "Notes".to_string();
    let windows = vec![
        WindowInfo { title: "Path of Exile 2".to_string(), minimized: false },
        WindowInfo { title: "Notes".to_string(), minimized: false },
    ];
    assert!(matches!(read_damage(&p, Event::Windows(windows)), Action::CaptureWindow(1)));
}

#[test]
fn a_region_outside_the_capture_reads_zero() {
    let p = Pipeline::standard();
    let image = RawFrame { width: 4, height: 4, pixels: vec![0; 64] };
    let region = ScreenRegion { x: 2, y: 2, width: 3, height: 1 };
    let action = read_damage(&p, Event::Image(image, region));
    assert_eq!(reading_of(action), (0, Some(ReadError::CaptureFailure)));
}

#[test]
fn a_capture_without_alpha_reads_zero() {
    let p = Pipeline::standard();
    let image = RawFrame { width: 4, height: 4, pixels: vec![0; 48] };
    let region = ScreenRegion { x: 0, y: 0, width: 1, height: 1 };
    let action = read_damage(&p, Event::Image(image, region));
    assert_eq!(reading_of(action), (0, Some(ReadError::CaptureFailure)));
}

#[test]
fn a_region_without_text_reads_zero() {
    let p = Pipeline::standard();
    let rows = vec!["............"; 5];
    let action = read_damage(&p, Event::Converted(hsv_frame(&rows, INK)));
    assert_eq!(reading_of(action), (0, Some(ReadError::MaskEmpty)));
}

#[test]
fn an_engine_failure_reads_zero() {
    let p = Pipeline::standard();
    let action = read_damage(&p, Event::Failed(Step::Recognize));
    assert_eq!(reading_of(action), (0, Some(ReadError::OcrFailure)));
    assert_eq!(Step::Recognize.classify(), ReadError::OcrFailure);
}

#[test]
fn a_failure_before_the_engine_is_a_capture_failure() {
    let p = Pipeline::standard();
    for step in [Step::ListWindows, Step::CaptureWindow, Step::Convert] {
        assert_eq!(step.classify(), ReadError::CaptureFailure);
        let action = read_damage(&p, Event::Failed(step));
        assert_eq!(reading_of(action), (0, Some(ReadError::CaptureFailure)));
    }
}

#[test]
fn malformed_text_reads_zero() {
    let p = Pipeline::standard();
    for text in ["", "\n", "12a", "1 2", "O0", "4294967296"] {
        assert_eq!(read_mask(text), Err(ReadError::UnparseableResult));
        let action = read_damage(&p, Event::Recognized(text.to_string()));
        assert_eq!(reading_of(action), (0, Some(ReadError::UnparseableResult)));
    }
}

#[test]
fn a_reading_of_zero_is_told_from_a_failure() {
    let p = Pipeline::standard();
    let action = read_damage(&p, Event::Recognized("0".to_string()));
    assert_eq!(reading_of(action), (0, None));
}

#[test]
fn the_same_input_reads_the_same_twice() {
    let p = Pipeline::standard();
    let first = p.get_mask(hsv_frame(&strokes(), INK)).unwrap();
    let second = p.get_mask(hsv_frame(&strokes(), INK)).unwrap();
    assert_eq!(first.data, second.data);
    assert_eq!((first.width, first.height), (second.width, second.height));
    let a = reading_of(read_damage(&p, Event::Recognized("55,837".to_string())));
    let b = reading_of(read_damage(&p, Event::Recognized("55,837".to_string())));
    assert_eq!(a, b);
    assert_eq!(a, (55837, None));
}

// The recognition engine is not part of the library: in the three tests that
// follow, the text that it returns for the numeral stands in for it.
fn read_through(frame: RawFrame, recognized: &str) -> u32 {
    let p = Pipeline::standard();
    let mask = p.get_mask(frame).unwrap();
    assert_eq!(mask.data.len(), mask.width * mask.height);
    read_mask(recognized).unwrap()
}

#[test]
fn read_white_19950() {
    let result = read_through(hsv_frame(&strokes(), INK), "19950\n");
    assert_eq!(result, 19950);
}

#[test]
fn read_white_55837() {
    let result = read_through(hsv_frame(&strokes(), INK), "55837\n");
    assert_eq!(result, 55837);
}

#[test]
fn read_gray_203() {
    let result = read_through(hsv_frame(&strokes(), GRAY_INK), "203\n");
    assert_eq!(result, 203);
}

#[test]
fn a_whole_tick_reads_the_numeral() {
    let p = Pipeline::standard();
    let glyph = match read_damage(&p, Event::Converted(hsv_frame(&strokes(), GRAY_INK))) {
        Action::Recognize(glyph) => glyph,
        other => panic!("unexpected {:?}", other),
    };
    assert_eq!(glyph.channels, 1);
    let action = read_damage(&p, Event::Recognized("203".to_string()));
    assert_eq!(reading_of(action), (203, None));
}

#[test]
#[should_panic]
fn read_no_damage() {
    let p = Pipeline::standard();
    let rows = vec!["................"; 6];
    let mask = p.get_mask(hsv_frame(&rows, INK)).unwrap();
    assert_eq!(mask.channels, 1);
}

#[test]
#[should_panic]
fn inspect_screenshot() {
    let screenshot = capture_region_from_application(&Vec::new(), "Path of Exile 2");
    screenshot.unwrap();
}
