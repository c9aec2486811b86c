use dmi_merge::grid::{Color, PixelGrid, Rect};

const RED: Color = (255, 0, 0, 255);
const GREEN: Color = (0, 255, 0, 255);
const BLUE: Color = (0, 0, 255, 255);
const CLEAR: Color = (0, 0, 0, 0);

fn samples_of(pixels: &[Color]) -> Vec<u8> {
    let mut out = Vec::new();
    for p in pixels {
        out.extend_from_slice(&[p.0, p.1, p.2, p.3]);
    }
    out
}

fn rect(x: u32, y: u32, width: u32, height: u32) -> Rect {
    Rect { x, y, width, height }
}

#[test]
fn from_raw_reads_samples_in_row_major_order() {
    let grid = PixelGrid::from_raw(2, 2, samples_of(&[RED, GREEN, BLUE, CLEAR])).unwrap();
    assert_eq!(grid.width(), 2);
    assert_eq!(grid.height(), 2);
    assert_eq!(grid.get(0, 0), Some(RED));
    assert_eq!(grid.get(1, 0), Some(GREEN));
    assert_eq!(grid.get(0, 1), Some(BLUE));
    assert_eq!(grid.get(1, 1), Some(CLEAR));
}

#[test]
fn from_raw_wants_exactly_four_samples_a_pixel() {
    assert!(PixelGrid::from_raw(2, 2, vec![0; 15]).is_none());
    assert!(PixelGrid::from_raw(2, 2, vec![0; 17]).is_none());
    assert!(PixelGrid::from_raw(2, 2, vec![0; 16]).is_some());
    assert!(PixelGrid::from_raw(0, 5, vec![]).is_some());
    assert!(PixelGrid::from_raw(u32::MAX, u32::MAX, vec![0; 4]).is_none());
}

#[test]
fn get_outside_the_grid_is_none() {
    let grid = PixelGrid::from_raw(2, 1, samples_of(&[RED, GREEN])).unwrap();
    assert_eq!(grid.get(2, 0), None);
    assert_eq!(grid.get(0, 1), None);
    assert_eq!(grid.get(u32::MAX, u32::MAX), None);
}

#[test]
fn to_samples_gives_back_what_from_raw_took() {
    let samples: Vec<u8> = (0u8..24).collect();
    let grid = PixelGrid::from_raw(3, 2, samples.clone()).unwrap();
    assert_eq!(grid.to_samples(), samples);
}

#[test]
fn from_pixels_places_pixel_at_row_times_width_plus_column() {
    let pixels = vec![RED, GREEN, BLUE, CLEAR, GREEN, RED];
    let grid = PixelGrid::from_pixels(3, 2, &pixels).unwrap();
    assert_eq!(grid.width(), 3);
    assert_eq!(grid.height(), 2);
    for y in 0..2u32 {
        for x in 0..3u32 {
            assert_eq!(grid.get(x, y), Some(pixels[(y * 3 + x) as usize]));
        }
    }
    assert_eq!(grid.to_samples(), samples_of(&pixels));
}

#[test]
fn from_pixels_wants_one_pixel_for_each_place() {
    assert!(PixelGrid::from_pixels(2, 2, &vec![RED; 3]).is_none());
    assert!(PixelGrid::from_pixels(2, 2, &vec![RED; 5]).is_none());
    assert!(PixelGrid::from_pixels(0, 0, &vec![]).is_some());
    assert!(PixelGrid::from_pixels(usize::MAX, 1, &vec![]).is_none());
}

#[test]
fn duplicate_has_the_same_pixels() {
    let samples: Vec<u8> = (0u8..16).collect();
    let grid = PixelGrid::from_raw(2, 2, samples.clone()).unwrap();
    let copy = grid.duplicate();
    assert_eq!(copy.width(), 2);
    assert_eq!(copy.height(), 2);
    assert_eq!(copy.to_samples(), samples);
}

#[test]
fn rect_equal_compares_pixels_relative_to_the_corners() {
    // Row 0: RED GREEN RED GREEN; row 1: BLUE CLEAR BLUE BLUE.
    let a = PixelGrid::from_pixels(4, 2, &vec![RED, GREEN, RED, GREEN, BLUE, CLEAR, BLUE, BLUE])
        .unwrap();
    let b = PixelGrid::from_pixels(2, 2, &vec![RED, GREEN, BLUE, CLEAR]).unwrap();
    assert!(a.rect_equal(rect(0, 0, 2, 2), &b, rect(0, 0, 2, 2)));
    assert!(!a.rect_equal(rect(2, 0, 2, 2), &b, rect(0, 0, 2, 2)));
    assert!(a.rect_equal(rect(2, 0, 2, 1), &b, rect(0, 0, 2, 1)));
    assert!(a.rect_equal(rect(0, 0, 2, 1), &a, rect(2, 0, 2, 1)));
}

#[test]
fn rect_equal_tells_alpha_apart() {
    let a = PixelGrid::from_pixels(1, 1, &vec![(1, 2, 3, 4)]).unwrap();
    let b = PixelGrid::from_pixels(1, 1, &vec![(1, 2, 3, 5)]).unwrap();
    assert!(!a.rect_equal(rect(0, 0, 1, 1), &b, rect(0, 0, 1, 1)));
    assert!(a.rect_equal(rect(0, 0, 1, 1), &a, rect(0, 0, 1, 1)));
}

#[test]
fn rect_equal_is_false_for_different_sizes() {
    let a = PixelGrid::from_pixels(2, 2, &vec![RED; 4]).unwrap();
    assert!(!a.rect_equal(rect(0, 0, 2, 1), &a, rect(0, 0, 1, 2)));
    assert!(!a.rect_equal(rect(0, 0, 1, 1), &a, rect(0, 0, 2, 1)));
    assert!(a.rect_equal(rect(0, 0, 0, 0), &a, rect(1, 1, 0, 0)));
}

#[test]
fn paste_copies_the_rectangle_and_nothing_else() {
    let mut base = PixelGrid::from_pixels(3, 2, &vec![RED; 6]).unwrap();
    let src = PixelGrid::from_pixels(2, 2, &vec![GREEN, BLUE, CLEAR, GREEN]).unwrap();
    base.paste(rect(1, 0, 2, 1), &src, rect(0, 1, 2, 1));
    assert_eq!(base.to_samples(), samples_of(&[RED, CLEAR, GREEN, RED, RED, RED]));
    base.paste(rect(0, 0, 1, 2), &src, rect(1, 0, 1, 2));
    assert_eq!(base.to_samples(), samples_of(&[BLUE, CLEAR, GREEN, GREEN, RED, RED]));
}

#[test]
fn paste_of_an_empty_rectangle_changes_nothing() {
    let mut base = PixelGrid::from_pixels(2, 1, &vec![RED, GREEN]).unwrap();
    let src = PixelGrid::from_pixels(1, 1, &vec![BLUE]).unwrap();
    base.paste(rect(1, 0, 0, 1), &src, rect(0, 0, 0, 1));
    assert_eq!(base.to_samples(), samples_of(&[RED, GREEN]));
}
