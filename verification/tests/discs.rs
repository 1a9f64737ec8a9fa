use shadow_rays::disc::fill_span;
use shadow_rays::{draw_circle, draw_horizontal_line};

const INK: [u8; 4] = [9, 8, 7, 255];

fn painted(frame: &[u8]) -> usize {
    (0..frame.len() / 4).filter(|i| frame[i * 4 + 3] == 255).count()
}

fn is_painted(frame: &[u8], x: i32, y: i32, width: i32) -> bool {
    frame[((y * width + x) * 4 + 3) as usize] == 255
}

fn disc_frame(cx: i32, cy: i32, radius: i32, side: u32) -> Vec<u8> {
    let mut frame = vec![0u8; (side * side * 4) as usize];
    draw_circle(cx, cy, radius, INK, &mut frame, &(side, side));
    frame
}

#[test]
fn horizontal_line_fills_both_ends() {
    let mut frame = vec![0u8; 8 * 4 * 4];
    draw_horizontal_line(2, 5, 1, INK, &mut frame, &(8, 4));
    for x in 0..8 {
        assert_eq!(is_painted(&frame, x, 1, 8), (2..=5).contains(&x));
    }
    assert_eq!(painted(&frame), 4);
}

#[test]
fn horizontal_line_is_clipped_to_the_row() {
    let mut frame = vec![0u8; 8 * 4 * 4];
    draw_horizontal_line(-100, 100, 3, INK, &mut frame, &(8, 4));
    assert_eq!(painted(&frame), 8);
    for x in 0..8 {
        assert!(is_painted(&frame, x, 3, 8));
    }
}

#[test]
fn horizontal_line_outside_the_rows_is_skipped() {
    let mut frame = vec![0u8; 8 * 4 * 4];
    draw_horizontal_line(0, 7, -1, INK, &mut frame, &(8, 4));
    draw_horizontal_line(0, 7, 4, INK, &mut frame, &(8, 4));
    draw_horizontal_line(0, 7, i32::MIN, INK, &mut frame, &(8, 4));
    assert_eq!(painted(&frame), 0);
}

#[test]
fn horizontal_line_with_ends_swapped_is_empty() {
    let mut frame = vec![0u8; 8 * 4 * 4];
    draw_horizontal_line(5, 2, 1, INK, &mut frame, &(8, 4));
    assert_eq!(painted(&frame), 0);
}

#[test]
fn horizontal_line_over_the_whole_range_ends() {
    let mut frame = vec![0u8; 3 * 4];
    draw_horizontal_line(i32::MIN, i32::MAX, 0, [1, 2, 3, 128], &mut frame, &(3, 1));
    assert_eq!(frame, vec![0, 1, 1, 255, 0, 1, 1, 255, 0, 1, 1, 255]);
}

#[test]
fn span_takes_wide_coordinates() {
    let mut frame = vec![0u8; 3 * 4];
    fill_span(i64::MIN, i64::MAX, 0, INK, &mut frame, &(3, 1));
    assert_eq!(painted(&frame), 3);
}

#[test]
fn disc_of_no_radius_paints_nothing() {
    assert_eq!(painted(&disc_frame(5, 5, 0, 11)), 0);
    assert_eq!(painted(&disc_frame(5, 5, -3, 11)), 0);
    assert_eq!(painted(&disc_frame(5, 5, i32::MIN, 11)), 0);
}

#[test]
fn disc_of_radius_one_is_a_plus() {
    let frame = disc_frame(2, 2, 1, 5);
    let expected = [(2, 1), (1, 2), (2, 2), (3, 2), (2, 3)];
    for y in 0..5 {
        for x in 0..5 {
            assert_eq!(is_painted(&frame, x, y, 5), expected.contains(&(x, y)));
        }
    }
}

#[test]
fn disc_pixel_count_follows_the_area() {
    let counts = [
        (1, 5), (2, 13), (3, 25), (5, 81), (10, 321), (20, 1261), (50, 7857), (100, 31433),
    ];
    for (radius, count) in counts {
        let side = (2 * radius + 21) as u32;
        let frame = disc_frame(radius + 10, radius + 10, radius, side);
        assert_eq!(painted(&frame), count);
        let area = std::f64::consts::PI * (radius * radius) as f64;
        assert!((count as f64 - area).abs() <= 2.0 * radius as f64);
    }
}

#[test]
fn disc_lies_between_two_circles() {
    for radius in [1, 2, 3, 4, 7, 12, 30] {
        let c = radius + 3;
        let side = 2 * c + 1;
        let frame = disc_frame(c, c, radius, side as u32);
        for y in 0..side {
            for x in 0..side {
                let d2 = (x - c) * (x - c) + (y - c) * (y - c);
                if d2 <= (radius - 1) * (radius - 1) {
                    assert!(is_painted(&frame, x, y, side));
                }
                if d2 > (radius + 1) * (radius + 1) {
                    assert!(!is_painted(&frame, x, y, side));
                }
            }
        }
    }
}

#[test]
fn disc_is_symmetric() {
    let (c, side) = (20, 41);
    let frame = disc_frame(c, c, 17, side as u32);
    for y in 0..side {
        for x in 0..side {
            let here = is_painted(&frame, x, y, side);
            assert_eq!(here, is_painted(&frame, 2 * c - x, y, side));
            assert_eq!(here, is_painted(&frame, x, 2 * c - y, side));
            assert_eq!(here, is_painted(&frame, y, x, side));
        }
    }
}

#[test]
fn disc_beyond_an_edge_by_more_than_its_radius_paints_nothing() {
    let side = 16;
    for (cx, cy, radius) in [
        (-6, 8, 5), (21, 8, 5), (8, -6, 5), (8, 21, 5), (-1001, -1001, 1000),
        (16, 8, 0), (17, 3, 1), (-2, 3, 1), (i32::MIN, 0, 100), (0, i32::MAX, 100),
    ] {
        assert_eq!(painted(&disc_frame(cx, cy, radius, side)), 0);
    }
}

#[test]
fn disc_touching_an_edge_paints_its_rim() {
    assert_eq!(painted(&disc_frame(-5, 8, 5, 16)), 3);
    assert_eq!(painted(&disc_frame(20, 8, 5, 16)), 3);
    assert_eq!(painted(&disc_frame(8, -5, 5, 16)), 3);
    assert_eq!(painted(&disc_frame(8, 20, 5, 16)), 3);
}

#[test]
fn disc_larger_than_the_window_fills_it() {
    let frame = disc_frame(8, 8, 40, 16);
    assert_eq!(painted(&frame), 256);
}

#[test]
fn disc_across_a_corner_is_clipped() {
    let whole = disc_frame(10, 10, 6, 21);
    let corner = disc_frame(0, 0, 6, 21);
    for y in 0..=6 {
        for x in 0..=6 {
            assert_eq!(
                is_painted(&corner, x, y, 21),
                is_painted(&whole, x + 10, y + 10, 21)
            );
        }
    }
    assert_eq!(painted(&corner), 34);
}

#[test]
fn translucent_disc_blends_overlapping_spans_again() {
    let mut frame = vec![0u8; 5 * 5 * 4];
    draw_circle(2, 2, 1, [255, 0, 0, 128], &mut frame, &(5, 5));
    let at = |x: usize, y: usize| frame[(y * 5 + x) * 4];
    assert_eq!(at(1, 2), 191);
    assert_eq!(at(2, 2), 191);
    assert_eq!(at(3, 2), 191);
    assert_eq!(at(2, 1), 128);
    assert_eq!(at(2, 3), 128);
}
