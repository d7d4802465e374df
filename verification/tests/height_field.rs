use landscape::height_field::{within_limits, HeightField, MAX_EXTENT};

fn flat(width: u32, height: u32, value: u8, size: u32, multiplier: i32) -> HeightField {
    let samples = vec![value; (width * height) as usize];
    HeightField::new(width, height, samples, size, multiplier).unwrap()
}

/// A 3 by 2 field: first row 0, 51, 255; second row 102, 204, 10.
fn small(size: u32, multiplier: i32) -> HeightField {
    HeightField::new(3, 2, vec![0, 51, 255, 102, 204, 10], size, multiplier).unwrap()
}

#[test]
fn flat_field_has_one_height_everywhere() {
    // 4 by 4 samples of 128, a multiplier of 100 world units, one world unit
    // per texel; lengths are in thousandths.
    let field = flat(4, 4, 128, 1000, 100_000);
    let h = field.height_at(1500, 1500);
    assert_eq!(h, 50_196);
    let as_units = h as f64 / 1000.0;
    assert!((as_units - 128.0 / 255.0 * 100.0).abs() < 0.001);
    assert_eq!(field.height_at(0, 0), 50_196);
    assert_eq!(field.height_at(2999, 1), 50_196);
}

#[test]
fn grid_points_give_the_stored_sample() {
    let field = small(10, 2550);
    let stored = [[0i64, 510, 2550], [1020, 2040, 100]];
    for row in 0..2 {
        for column in 0..3 {
            let h = field.height_at(column as i64 * 10, row as i64 * 10);
            assert_eq!(h, stored[row][column]);
            assert_eq!(h, field.height_of_sample(field.sample_at(column as u32, row as u32)));
        }
    }
}

#[test]
fn heights_are_interpolated_between_samples() {
    let field = small(10, 2550);
    // Halfway between the samples 0 and 51 of the first row.
    assert_eq!(field.height_at(5, 0), 255);
    // A quarter of the way from 51 to 255.
    assert_eq!(field.height_at(12, 0), (51 * 8 + 255 * 2) * 2550 / (255 * 10));
    // Halfway between the rows, in the first column.
    assert_eq!(field.height_at(0, 5), 510);
    // The middle of the first cell: the mean of 0, 51, 102 and 204.
    assert_eq!(field.height_at(5, 5), (0 + 51 + 102 + 204) * 25 * 2550 / (255 * 100));
    // Weighted along the first axis by x, along the second by z.
    let n = 0 * 7 * 9 + 51 * 3 * 9 + 102 * 7 * 1 + 204 * 3 * 1;
    assert_eq!(field.height_at(3, 1), n * 2550 / (255 * 100));
}

#[test]
fn positions_outside_take_the_height_of_the_edge() {
    let field = small(10, 2550);
    assert_eq!(field.height_at(-1, -1), field.height_at(0, 0));
    assert_eq!(field.height_at(i64::MIN, 5), field.height_at(0, 5));
    assert_eq!(field.height_at(21, 0), 2550);
    assert_eq!(field.height_at(i64::MAX, i64::MAX), field.height_at(20, 10));
    assert_eq!(field.height_at(i64::MAX, i64::MAX), 100);
    assert_eq!(field.height_at(12, 1_000_000), field.height_at(12, 10));
    assert_eq!(field.height_at(12, -7), field.height_at(12, 0));
}

#[test]
fn heights_round_down() {
    let field = flat(2, 2, 1, 1, 100);
    assert_eq!(field.height_of_sample(1), 0);
    assert_eq!(field.height_at(0, 0), 0);
    let deep = flat(2, 2, 1, 1, -100);
    assert_eq!(deep.height_of_sample(1), -1);
    assert_eq!(deep.height_at(1, 1), -1);
    assert_eq!(deep.height_of_sample(255), -100);
    assert_eq!(deep.height_of_sample(0), 0);
}

#[test]
fn a_single_sample_is_the_whole_field() {
    let field = flat(1, 1, 200, 4_000_000_000, 255);
    assert_eq!(field.height_at(0, 0), 200);
    assert_eq!(field.height_at(123_456_789, -5), 200);
}

#[test]
fn new_refuses_what_is_out_of_limits() {
    assert!(HeightField::new(2, 2, vec![0; 4], 1, 1).is_some());
    assert!(HeightField::new(2, 2, vec![0; 3], 1, 1).is_none());
    assert!(HeightField::new(2, 2, vec![0; 5], 1, 1).is_none());
    assert!(HeightField::new(0, 2, vec![], 1, 1).is_none());
    assert!(HeightField::new(2, 0, vec![], 1, 1).is_none());
    assert!(HeightField::new(2, 2, vec![0; 4], 0, 1).is_none());
    assert!(HeightField::new(2, 2, vec![0; 4], 1, i32::MAX).is_none());
    assert!(HeightField::new(2, 2, vec![0; 4], 1, i32::MIN).is_none());
    assert!(HeightField::new(2, 2, vec![0; 4], 1 << 30, 1 << 30).is_some());
    assert!(HeightField::new(2, 2, vec![0; 4], (1 << 30) + 1, 1).is_none());
    assert!(HeightField::new(3, 1, vec![0; 3], 1 << 29, -(1 << 30)).is_some());
    assert!(HeightField::new(3, 1, vec![0; 3], (1 << 29) + 1, 1).is_none());
}

#[test]
fn limits_are_what_new_goes_by() {
    assert!(within_limits(1, 1, u32::MAX, 0));
    assert!(within_limits(65_535, 65_537, 1, 0));
    assert!(!within_limits(65_536, 65_536, 1, 0));
    assert!(within_limits(2, 1, MAX_EXTENT as u32, MAX_EXTENT as i32));
    assert!(!within_limits(2, 1, MAX_EXTENT as u32, MAX_EXTENT as i32 + 1));
    assert!(!within_limits(1, 2, MAX_EXTENT as u32 + 1, 0));
}
