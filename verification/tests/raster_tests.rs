use rust_chladni_logic::error::ChladniError;
use rust_chladni_logic::raster::{generate_chladni_pattern, paint, pixel_count, CHANNELS};
use std::cell::RefCell;
use std::f64::consts::PI;

const BLACK: [u8; 4] = [0, 0, 0, 255];
const WHITE: [u8; 4] = [255, 255, 255, 255];

fn field(x: f64, y: f64, n: f64, m: f64, a: f64, b: f64) -> f64 {
    a * (PI * n * x).sin() * (PI * m * y).sin() + b * (PI * m * x).sin() * (PI * n * y).sin()
}

fn normalized(i: usize, side: usize) -> f64 {
    i as f64 / (side - 1) as f64 * 2.0 - 1.0
}

#[test]
fn pattern_of_mode_1_2_on_a_3_by_3_grid() {
    let (n, m, a, b, threshold) = (1.0, 2.0, 1.0, 0.0, 0.1);
    let (width, height) = (3usize, 3usize);
    let bitmap = generate_chladni_pattern(width, height, |ix: usize, iy: usize| {
        field(normalized(ix, width), normalized(iy, height), n, m, a, b).abs() < threshold
    })
    .unwrap();
    assert_eq!(bitmap.len(), 36);
    let grid = [-1.0, 0.0, 1.0];
    for iy in 0..3 {
        for ix in 0..3 {
            let s: f64 = a * (PI * n * grid[ix]).sin() * (PI * m * grid[iy]).sin()
                + b * (PI * m * grid[ix]).sin() * (PI * n * grid[iy]).sin();
            let expected = if s.abs() < threshold { BLACK } else { WHITE };
            let at = (iy * 3 + ix) * 4;
            assert_eq!(bitmap[at..at + 4], expected);
            assert_eq!(bitmap[at + 3], 255);
        }
    }
    assert_eq!(bitmap, [BLACK; 9].concat());
}

#[test]
fn pattern_separates_nodes_from_antinodes() {
    let (n, m, a, b, threshold) = (1.0, 1.0, 1.0, 0.0, 0.5);
    let bitmap = generate_chladni_pattern(5, 5, |ix: usize, iy: usize| {
        field(normalized(ix, 5), normalized(iy, 5), n, m, a, b).abs() < threshold
    })
    .unwrap();
    let mut expected = Vec::new();
    for iy in 0..5 {
        for ix in 0..5 {
            let antinode = ix % 2 == 1 && iy % 2 == 1;
            expected.extend_from_slice(if antinode { &WHITE } else { &BLACK });
        }
    }
    assert_eq!(bitmap, expected);
}

#[test]
fn pattern_asks_every_pixel_once_row_by_row() {
    let asked = RefCell::new(Vec::new());
    let bitmap = generate_chladni_pattern(3, 2, |ix: usize, iy: usize| {
        asked.borrow_mut().push((ix, iy));
        ix == 2 || iy == 1
    })
    .unwrap();
    assert_eq!(asked.into_inner(), vec![(0, 0), (1, 0), (2, 0), (0, 1), (1, 1), (2, 1)]);
    assert_eq!(bitmap, [WHITE, WHITE, BLACK, BLACK, BLACK, BLACK].concat());
}

#[test]
fn pattern_refuses_a_grid_with_a_side_below_two() {
    let asked = RefCell::new(0);
    let count = |_: usize, _: usize| {
        *asked.borrow_mut() += 1;
        true
    };
    assert_eq!(generate_chladni_pattern(1, 3, &count), Err(ChladniError::InvalidInput));
    assert_eq!(generate_chladni_pattern(3, 1, &count), Err(ChladniError::InvalidInput));
    assert_eq!(generate_chladni_pattern(0, 3, &count), Err(ChladniError::InvalidInput));
    assert_eq!(generate_chladni_pattern(3, 0, &count), Err(ChladniError::InvalidInput));
    assert_eq!(generate_chladni_pattern(1, 1, &count), Err(ChladniError::InvalidInput));
    assert_eq!(generate_chladni_pattern(0, 0, &count), Err(ChladniError::InvalidInput));
    assert_eq!(*asked.borrow(), 0);
}

#[test]
fn pattern_refuses_a_grid_too_large_to_address() {
    let never = |_: usize, _: usize| true;
    assert_eq!(generate_chladni_pattern(usize::MAX, 2, never), Err(ChladniError::InvalidInput));
    assert_eq!(
        generate_chladni_pattern(usize::MAX / 4, 2, never),
        Err(ChladniError::InvalidInput)
    );
}

#[test]
fn smallest_grid_has_four_pixels() {
    let bitmap = generate_chladni_pattern(2, 2, |ix: usize, iy: usize| ix == iy).unwrap();
    assert_eq!(bitmap, [BLACK, WHITE, WHITE, BLACK].concat());
}

#[test]
fn pixel_count_multiplies_the_sides() {
    assert_eq!(pixel_count(2, 2), Ok(4));
    assert_eq!(pixel_count(3, 3), Ok(9));
    assert_eq!(pixel_count(640, 480), Ok(307_200));
    assert_eq!(CHANNELS, 4);
}

#[test]
fn pixel_count_refuses_what_is_not_accepted() {
    assert_eq!(pixel_count(1, 480), Err(ChladniError::InvalidInput));
    assert_eq!(pixel_count(640, 1), Err(ChladniError::InvalidInput));
    assert_eq!(pixel_count(0, 0), Err(ChladniError::InvalidInput));
    assert_eq!(pixel_count(usize::MAX, usize::MAX), Err(ChladniError::InvalidInput));
    assert_eq!(pixel_count(usize::MAX / 4 + 1, 2), Err(ChladniError::InvalidInput));
    assert_eq!(pixel_count(usize::MAX / 8, 2), Ok(usize::MAX / 8 * 2));
}

#[test]
fn paint_blackens_nodes_and_whitens_the_rest() {
    let mask = vec![true, false, false, true, true, false];
    let bitmap = paint(3, 2, &mask).unwrap();
    assert_eq!(bitmap.len(), 24);
    assert_eq!(bitmap, [BLACK, WHITE, WHITE, BLACK, BLACK, WHITE].concat());
}

#[test]
fn paint_is_opaque_everywhere() {
    let mask = vec![true, false, true, false];
    let bitmap = paint(2, 2, &mask).unwrap();
    for pixel in bitmap.chunks(4) {
        assert_eq!(pixel[3], 255);
        assert!(pixel[0] == pixel[1] && pixel[1] == pixel[2]);
    }
}

#[test]
fn paint_refuses_a_mask_of_the_wrong_length() {
    assert_eq!(paint(2, 2, &vec![true; 3]), Err(ChladniError::LengthMismatch));
    assert_eq!(paint(2, 2, &vec![true; 5]), Err(ChladniError::LengthMismatch));
    assert_eq!(paint(2, 2, &Vec::new()), Err(ChladniError::LengthMismatch));
}

#[test]
fn paint_reports_the_grid_before_the_mask() {
    assert_eq!(paint(1, 4, &vec![true; 4]), Err(ChladniError::InvalidInput));
    assert_eq!(paint(1, 1, &Vec::new()), Err(ChladniError::InvalidInput));
}
