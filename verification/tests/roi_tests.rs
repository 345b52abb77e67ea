use dps_meter::error::ReadError;
use dps_meter::raster::Raster;
use dps_meter::roi::{
    bounding_rect, check_fits, crop, invert, pad, upscale, BoundingBox, Extractor,
};

fn mask_of(rows: &[&str]) -> Raster {
    let height = rows.len();
    let width = if height == 0 { 0 } else { rows[0].len() };
    let mut data = Vec::new();
    for row in rows {
        assert_eq!(row.len(), width);
        for c in row.chars() {
            data.push(if c == '#' { 255 } else { 0 });
        }
    }
    Raster { width, height, channels: 1, data }
}

fn rows_of(mask: &Raster) -> Vec<String> {
    assert_eq!(mask.channels, 1);
    assert_eq!(mask.data.len(), mask.width * mask.height);
    let mut rows = Vec::new();
    for y in 0..mask.height {
        let mut row = String::new();
        for x in 0..mask.width {
            row.push(match mask.data[y * mask.width + x] {
                255 => '#',
                0 => '.',
                other => panic!("pixel {} is not binary", other),
            });
        }
        rows.push(row);
    }
    rows
}

#[test]
fn bounding_rect_of_a_dark_mask_is_none() {
    assert_eq!(bounding_rect(&mask_of(&["....", "...."])), None);
    assert_eq!(bounding_rect(&mask_of(&[])), None);
}

#[test]
fn bounding_rect_of_one_pixel() {
    let r = bounding_rect(&mask_of(&["....", "..#.", "...."]));
    assert_eq!(r, Some(BoundingBox { x: 2, y: 1, width: 1, height: 1 }));
}

#[test]
fn bounding_rect_encloses_scattered_pixels() {
    let r = bounding_rect(&mask_of(&[
        "......",
        "...#..",
        ".#....",
        "....#.",
        "..#...",
        "......",
    ]));
    assert_eq!(r, Some(BoundingBox { x: 1, y: 1, width: 4, height: 4 }));
}

#[test]
fn bounding_rect_of_a_full_mask_is_the_mask() {
    let r = bounding_rect(&mask_of(&["###", "###"]));
    assert_eq!(r, Some(BoundingBox { x: 0, y: 0, width: 3, height: 2 }));
}

#[test]
fn bounding_rect_counts_only_full_white() {
    let m = Raster { width: 3, height: 1, channels: 1, data: vec![254, 255, 1] };
    assert_eq!(bounding_rect(&m), Some(BoundingBox { x: 1, y: 0, width: 1, height: 1 }));
}

#[test]
fn crop_cuts_the_rectangle() {
    let src = mask_of(&["#...", ".##.", ".#.#", "...."]);
    let out = crop(&src, BoundingBox { x: 1, y: 1, width: 3, height: 2 });
    assert_eq!(rows_of(&out), vec!["##.", "#.#"]);
}

#[test]
fn crop_of_the_whole_is_the_whole() {
    let src = mask_of(&["#.", ".#"]);
    let out = crop(&src, BoundingBox { x: 0, y: 0, width: 2, height: 2 });
    assert_eq!(rows_of(&out), rows_of(&src));
}

#[test]
fn invert_exchanges_black_and_white() {
    let src = mask_of(&["#.", ".#", "##"]);
    let out = invert(&src);
    assert_eq!(rows_of(&out), vec![".#", "#.", ".."]);
    assert_eq!(rows_of(&invert(&out)), rows_of(&src));
}

#[test]
fn pad_adds_a_white_frame() {
    let src = mask_of(&["..", "#."]);
    let out = pad(&src, 1).unwrap();
    assert_eq!(rows_of(&out), vec!["####", "#..#", "##.#", "####"]);
}

#[test]
fn pad_by_ten_adds_twenty_to_each_side_length() {
    let src = mask_of(&["...", "..."]);
    let out = pad(&src, 10).unwrap();
    assert_eq!((out.width, out.height), (23, 22));
    for y in 0..22 {
        for x in 0..23 {
            let inside = (10..13).contains(&x) && (10..12).contains(&y);
            assert_eq!(out.get(x, y, 0), if inside { 0 } else { 255 });
        }
    }
}

#[test]
fn pad_by_zero_is_a_copy() {
    let src = mask_of(&["#.", ".#"]);
    assert_eq!(rows_of(&pad(&src, 0).unwrap()), rows_of(&src));
}

#[test]
fn pad_refuses_a_size_that_overflows() {
    let src = mask_of(&["#"]);
    assert!(pad(&src, usize::MAX / 2).is_none());
    assert!(pad(&src, usize::MAX).is_none());
}

#[test]
fn upscale_by_two_doubles_each_pixel() {
    let src = mask_of(&["#.", ".#"]);
    let out = upscale(&src, 2).unwrap();
    assert_eq!(rows_of(&out), vec!["##..", "##..", "..##", "..##"]);
}

#[test]
fn upscale_by_three_triples_each_pixel() {
    let src = mask_of(&["#.#"]);
    let out = upscale(&src, 3).unwrap();
    assert_eq!(rows_of(&out), vec!["###...###", "###...###", "###...###"]);
}

#[test]
fn upscale_multiplies_the_size_exactly() {
    let src = mask_of(&["#..#.", ".##..", "....#"]);
    for scale in [1usize, 2, 3, 7] {
        let out = upscale(&src, scale).unwrap();
        assert_eq!(out.width, 5 * scale);
        assert_eq!(out.height, 3 * scale);
        for y in 0..out.height {
            for x in 0..out.width {
                assert_eq!(out.get(x, y, 0), src.get(x / scale, y / scale, 0));
            }
        }
    }
}

#[test]
fn upscale_refuses_a_size_that_overflows() {
    let src = mask_of(&["#.", ".#"]);
    assert!(upscale(&src, usize::MAX).is_none());
    assert!(upscale(&src, usize::MAX / 2).is_none());
}

#[test]
fn check_fits_is_about_the_area() {
    assert!(check_fits(0, usize::MAX));
    assert!(check_fits(1, usize::MAX));
    assert!(!check_fits(2, usize::MAX));
    assert!(check_fits(1000, 1000));
}

#[test]
fn standard_extractor_frames_by_ten_and_triples() {
    let e = Extractor::standard();
    assert_eq!(e, Extractor { border: 10, scale: 3 });
    assert!(e.has_room_for(1344, 65));
    assert!(!e.has_room_for(usize::MAX, 1));
    assert!(!e.has_room_for(usize::MAX / 3, usize::MAX / 3));
}

#[test]
fn extract_reports_an_empty_mask() {
    let out = Extractor::standard().extract(&mask_of(&["....", "....", "...."]));
    assert_eq!(out.err(), Some(ReadError::MaskEmpty));
}

#[test]
fn extract_crops_inverts_frames_and_enlarges() {
    let src = mask_of(&["......", "..#.#.", "..###.", "......"]);
    let e = Extractor { border: 1, scale: 2 };
    let out = e.extract(&src).unwrap();
    assert_eq!(
        rows_of(&out),
        vec![
            "##########",
            "##########",
            "##..##..##",
            "##..##..##",
            "##......##",
            "##......##",
            "##########",
            "##########",
        ]
    );
}

#[test]
fn extract_size_is_box_plus_frame_times_scale() {
    let src = mask_of(&["........", ".#....#.", "...#....", "........"]);
    let out = Extractor::standard().extract(&src).unwrap();
    assert_eq!(out.width, (6 + 2 * 10) * 3);
    assert_eq!(out.height, (2 + 2 * 10) * 3);
    let out = Extractor { border: 10, scale: 2 }.extract(&src).unwrap();
    assert_eq!(out.width, (6 + 2 * 10) * 2);
    assert_eq!(out.height, (2 + 2 * 10) * 2);
}
