use shadow_rays::draw_line;

const INK: [u8; 4] = [200, 100, 50, 255];

fn painted(frame: &[u8], width: usize) -> Vec<(usize, usize)> {
    let mut out = Vec::new();
    for i in 0..frame.len() / 4 {
        if frame[i * 4 + 3] == 255 {
            out.push((i % width, i / width));
        }
    }
    out
}

fn line_pixels(x0: i32, y0: i32, x1: i32, y1: i32, side: u32) -> Vec<(usize, usize)> {
    let mut frame = vec![0u8; (side * side * 4) as usize];
    draw_line(x0, y0, x1, y1, INK, &mut frame, &(side, side));
    painted(&frame, side as usize)
}

#[test]
fn shallow_line_rounds_ties_away_from_the_start() {
    assert_eq!(line_pixels(0, 0, 3, 1, 8), vec![(0, 0), (1, 0), (2, 1), (3, 1)]);
    assert_eq!(line_pixels(0, 0, 2, 1, 8), vec![(0, 0), (1, 1), (2, 1)]);
    assert_eq!(line_pixels(0, 0, 4, 2, 8), vec![(0, 0), (1, 1), (2, 1), (3, 2), (4, 2)]);
}

#[test]
fn reversed_line_starts_from_its_own_end() {
    assert_eq!(line_pixels(3, 1, 0, 0, 8), vec![(0, 0), (1, 0), (2, 1), (3, 1)]);
    assert_eq!(line_pixels(2, 1, 0, 0, 8), vec![(0, 0), (1, 0), (2, 1)]);
}

#[test]
fn steep_line_steps_once_per_row() {
    assert_eq!(line_pixels(0, 0, 1, 3, 8), vec![(0, 0), (0, 1), (1, 2), (1, 3)]);
    assert_eq!(
        line_pixels(2, 2, 2, 7, 8),
        vec![(2, 2), (2, 3), (2, 4), (2, 5), (2, 6), (2, 7)]
    );
}

#[test]
fn diagonal_line_steps_on_both_axes() {
    assert_eq!(
        line_pixels(0, 0, 5, 5, 8),
        vec![(0, 0), (1, 1), (2, 2), (3, 3), (4, 4), (5, 5)]
    );
    assert_eq!(
        line_pixels(5, 5, 0, 2, 8),
        vec![(0, 2), (1, 3), (2, 3), (3, 4), (4, 4), (5, 5)]
    );
}

#[test]
fn single_point_line_paints_one_pixel() {
    assert_eq!(line_pixels(4, 6, 4, 6, 8), vec![(4, 6)]);
}

#[test]
fn both_end_points_are_painted_in_every_octant() {
    let ends = [
        (9, 2), (9, 9), (2, 9), (-9, 9), (-9, 2), (-9, -2), (-9, -9), (-2, -9),
        (2, -9), (9, -9), (9, -2), (9, 0), (0, 9), (-9, 0), (0, -9), (-2, 9),
    ];
    for (dx, dy) in ends {
        let pixels = line_pixels(10, 10, 10 + dx, 10 + dy, 21);
        assert!(pixels.contains(&(10, 10)));
        assert!(pixels.contains(&((10 + dx) as usize, (10 + dy) as usize)));
        let longer = dx.abs().max(dy.abs()) as usize;
        assert_eq!(pixels.len(), longer + 1);
    }
}

#[test]
fn line_pixels_lie_within_half_a_pixel_of_the_segment() {
    for (x1, y1) in [(17, 5), (5, 17), (-13, 4), (7, -19), (-11, -11), (19, 1)] {
        let pixels = line_pixels(20, 20, 20 + x1, 20 + y1, 41);
        for (px, py) in pixels {
            let (dx, dy) = (px as i64 - 20, py as i64 - 20);
            let cross = (dx * y1 as i64 - dy * x1 as i64).abs();
            let longer = (x1 as i64).abs().max((y1 as i64).abs());
            assert!(2 * cross <= longer);
        }
    }
}

#[test]
fn line_leaving_the_window_goes_on() {
    assert_eq!(line_pixels(-3, 1, 2, 1, 4), vec![(0, 1), (1, 1), (2, 1)]);
    assert_eq!(line_pixels(2, 2, 9, 2, 4), vec![(2, 2), (3, 2)]);
    assert_eq!(line_pixels(-2, -2, 6, 6, 4), vec![(0, 0), (1, 1), (2, 2), (3, 3)]);
    assert_eq!(line_pixels(-5, 1, 9, 1, 4), vec![(0, 1), (1, 1), (2, 1), (3, 1)]);
}

#[test]
fn line_wholly_outside_paints_nothing() {
    assert_eq!(line_pixels(-5, -5, -1, -9, 4), vec![]);
    assert_eq!(line_pixels(4, 0, 9, 3, 4), vec![]);
}

#[test]
fn line_between_far_corners_ends() {
    let mut frame = vec![0u8; 4];
    draw_line(i32::MAX - 40, i32::MIN, i32::MAX, i32::MIN + 30, INK, &mut frame, &(1, 1));
    assert_eq!(frame, vec![0u8; 4]);
}

#[test]
fn translucent_line_blends_every_pixel_once() {
    let mut frame = vec![0u8; 6 * 6 * 4];
    draw_line(0, 0, 5, 3, [255, 255, 0, 100], &mut frame, &(6, 6));
    let mut count = 0;
    for i in 0..36 {
        let p = &frame[i * 4..i * 4 + 4];
        if p[3] == 255 {
            assert_eq!(p, &[100, 100, 0, 255]);
            count += 1;
        } else {
            assert_eq!(p, &[0, 0, 0, 0]);
        }
    }
    assert_eq!(count, 6);
}
