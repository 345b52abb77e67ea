use dps_meter::capture::{
    capture_region, capture_region_from_application, capture_region_from_poe2, same_text,
    ScreenRegion, WindowInfo,
};
use dps_meter::error::ReadError;
use dps_meter::raster::Raster;

fn window(title: &str, minimized: bool) -> WindowInfo {
    WindowInfo { title: title.to_string(), minimized }
}

fn rgba(width: usize, height: usize) -> Raster {
    let mut data = Vec::new();
    for y in 0..height {
        for x in 0..width {
            data.push((10 * y + x) as u8);
            data.push((100 + 10 * y + x) as u8);
            data.push((200 + 10 * y + x) as u8);
            data.push(255);
        }
    }
    Raster { width, height, channels: 4, data }
}

#[test]
fn same_text_compares_characters() {
    assert!(same_text("", ""));
    assert!(same_text("Path of Exile 2", "Path of Exile 2"));
    assert!(!same_text("Path of Exile 2", "Path of Exile"));
    assert!(!same_text("Path of Exile 2", "path of exile 2"));
    assert!(!same_text("\u{e9}", "e"));
    assert!(same_text("\u{65e5}\u{672c}\u{8a9e}", "\u{65e5}\u{672c}\u{8a9e}"));
}

#[test]
fn the_first_matching_window_is_chosen() {
    let windows = vec![
        window("Terminal", false),
        window("Path of Exile 2", false),
        window("Path of Exile 2", false),
    ];
    assert_eq!(capture_region_from_application(&windows, "Path of Exile 2"), Ok(1));
    assert_eq!(capture_region_from_poe2(&windows), Ok(1));
    assert_eq!(capture_region_from_application(&windows, "Terminal"), Ok(0));
}

#[test]
fn a_minimized_window_is_passed_over() {
    let windows = vec![
        window("Path of Exile 2", true),
        window("Editor", false),
        window("Path of Exile 2", false),
    ];
    assert_eq!(capture_region_from_poe2(&windows), Ok(2));
}

#[test]
fn no_window_is_window_not_found() {
    assert_eq!(capture_region_from_poe2(&Vec::new()), Err(ReadError::WindowNotFound));
    let windows = vec![window("Path of Exile 2", true), window("Path of Exile", false)];
    assert_eq!(capture_region_from_poe2(&windows), Err(ReadError::WindowNotFound));
    assert_eq!(
        capture_region_from_application(&windows, "Path of Exile 2 "),
        Err(ReadError::WindowNotFound)
    );
}

#[test]
fn the_title_must_match_exactly() {
    let windows = vec![window("Path of Exile 2 - Launcher", false)];
    assert_eq!(capture_region_from_poe2(&windows), Err(ReadError::WindowNotFound));
}

#[test]
fn the_region_is_cut_out_without_alpha() {
    let image = rgba(4, 3);
    let region = ScreenRegion { x: 1, y: 1, width: 2, height: 2 };
    let frame = capture_region(&image, region).unwrap();
    assert_eq!((frame.width, frame.height, frame.channels), (2, 2, 3));
    assert_eq!(frame.data, vec![11, 111, 211, 12, 112, 212, 21, 121, 221, 22, 122, 222]);
}

#[test]
fn the_whole_image_is_a_region() {
    let image = rgba(3, 2);
    let region = ScreenRegion { x: 0, y: 0, width: 3, height: 2 };
    let frame = capture_region(&image, region).unwrap();
    assert_eq!(frame.data.len(), 18);
    assert_eq!(&frame.data[0..3], &[0, 100, 200]);
    assert_eq!(&frame.data[15..18], &[12, 112, 212]);
}

#[test]
fn a_region_beyond_the_image_is_a_capture_failure() {
    let image = rgba(4, 3);
    for region in [
        ScreenRegion { x: 3, y: 0, width: 2, height: 1 },
        ScreenRegion { x: 0, y: 2, width: 1, height: 2 },
        ScreenRegion { x: 4, y: 0, width: 1, height: 1 },
        ScreenRegion { x: 5, y: 0, width: 1, height: 1 },
        ScreenRegion { x: 0, y: 0, width: 5, height: 1 },
        ScreenRegion { x: u32::MAX, y: 0, width: u32::MAX, height: 1 },
    ] {
        assert_eq!(capture_region(&image, region).err(), Some(ReadError::CaptureFailure));
    }
}

#[test]
fn an_empty_region_is_a_capture_failure() {
    let image = rgba(4, 3);
    for region in [
        ScreenRegion { x: 0, y: 0, width: 0, height: 1 },
        ScreenRegion { x: 0, y: 0, width: 1, height: 0 },
        ScreenRegion { x: 0, y: 0, width: 0, height: 0 },
    ] {
        assert_eq!(capture_region(&image, region).err(), Some(ReadError::CaptureFailure));
    }
}

#[test]
fn a_region_that_touches_the_far_corner_is_inside() {
    let image = rgba(4, 3);
    let region = ScreenRegion { x: 3, y: 2, width: 1, height: 1 };
    let frame = capture_region(&image, region).unwrap();
    assert_eq!(frame.data, vec![23, 123, 223]);
}
