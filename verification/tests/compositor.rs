use shadow_rays::draw_on_point;
use shadow_rays::pixel::{blend, plot};

fn pixel(frame: &[u8], x: usize, y: usize, width: usize) -> [u8; 4] {
    let i = (y * width + x) * 4;
    [frame[i], frame[i + 1], frame[i + 2], frame[i + 3]]
}

#[test]
fn blend_is_the_weighted_mean_rounded_down() {
    assert_eq!(blend(255, 0, 100), 100);
    assert_eq!(blend(200, 100, 128), 150);
    assert_eq!(blend(0, 255, 1), 254);
    assert_eq!(blend(1, 0, 254), 0);
    assert_eq!(blend(255, 255, 77), 255);
    assert_eq!(blend(0, 51, 65), 38);
}

#[test]
fn blend_at_full_opacity_gives_the_source() {
    for src in 0..=255u8 {
        for dst in [0u8, 1, 127, 254, 255] {
            assert_eq!(blend(src, dst, 255), src);
        }
    }
}

#[test]
fn blend_at_zero_opacity_gives_the_destination() {
    for dst in 0..=255u8 {
        for src in [0u8, 1, 127, 254, 255] {
            assert_eq!(blend(src, dst, 0), dst);
        }
    }
}

#[test]
fn blend_stays_between_source_and_destination() {
    for alpha in 0..=255u8 {
        let out = blend(40, 200, alpha);
        assert!(40 <= out && out <= 200);
        let back = blend(200, 40, alpha);
        assert!(40 <= back && back <= 200);
    }
}

#[test]
fn blend_stays_within_one_of_single_precision() {
    for alpha in [0u8, 1, 65, 100, 128, 200, 254, 255] {
        let a = alpha as f32 / 255.0;
        for src in [0u8, 3, 51, 128, 255] {
            for dst in 0..=255u8 {
                let float = (src as f32 * a + dst as f32 * (1.0 - a)) as u8;
                let exact = blend(src, dst, alpha);
                assert!(exact == float || exact == float + 1);
            }
        }
    }
}

#[test]
fn opaque_pixel_replaces_destination() {
    let mut frame = vec![9u8; 4 * 3 * 2];
    draw_on_point(1, 1, [10, 20, 30, 255], &mut frame, 3);
    assert_eq!(pixel(&frame, 1, 1, 3), [10, 20, 30, 255]);
    for (i, byte) in frame.iter().enumerate() {
        if !(16..20).contains(&i) {
            assert_eq!(*byte, 9);
        }
    }
}

#[test]
fn transparent_pixel_keeps_an_opaque_destination() {
    let mut frame = vec![0u8; 4 * 2 * 2];
    draw_on_point(0, 1, [70, 80, 90, 255], &mut frame, 2);
    let before = frame.clone();
    draw_on_point(0, 1, [1, 2, 3, 0], &mut frame, 2);
    assert_eq!(frame, before);
}

#[test]
fn transparent_pixel_still_stores_full_alpha() {
    let mut frame = vec![0u8; 4];
    draw_on_point(0, 0, [1, 2, 3, 0], &mut frame, 1);
    assert_eq!(frame, vec![0, 0, 0, 255]);
}

#[test]
fn translucent_pixel_mixes_each_channel() {
    let mut frame = vec![0u8; 4];
    draw_on_point(0, 0, [255, 255, 0, 100], &mut frame, 1);
    assert_eq!(frame, vec![100, 100, 0, 255]);
    draw_on_point(0, 0, [255, 255, 0, 100], &mut frame, 1);
    assert_eq!(frame, vec![160, 160, 0, 255]);
}

#[test]
fn pixel_past_the_buffer_is_dropped() {
    let mut frame = vec![5u8; 4 * 2 * 2];
    let before = frame.clone();
    draw_on_point(0, 2, [1, 1, 1, 255], &mut frame, 2);
    draw_on_point(7, 7, [1, 1, 1, 255], &mut frame, 2);
    draw_on_point(u32::MAX, u32::MAX, [1, 1, 1, 255], &mut frame, u32::MAX);
    assert_eq!(frame, before);
}

#[test]
fn pixel_in_a_short_buffer_is_dropped_whole() {
    let mut frame = vec![5u8; 7];
    draw_on_point(1, 0, [1, 1, 1, 255], &mut frame, 2);
    assert_eq!(frame, vec![5u8; 7]);
    draw_on_point(0, 0, [1, 2, 3, 255], &mut frame, 2);
    assert_eq!(frame, vec![1, 2, 3, 255, 5, 5, 5]);
}

#[test]
fn offset_is_row_major() {
    let mut frame = vec![0u8; 4 * 5 * 4];
    draw_on_point(3, 2, [1, 2, 3, 255], &mut frame, 5);
    assert_eq!(&frame[52..56], &[1, 2, 3, 255]);
    assert_eq!(frame.iter().filter(|b| **b != 0).count(), 4);
}

#[test]
fn plot_checks_the_window() {
    let mut frame = vec![0u8; 4 * 3 * 3];
    let window = (3u32, 3u32);
    plot(-1, 0, [1, 1, 1, 255], &mut frame, &window);
    plot(3, 0, [1, 1, 1, 255], &mut frame, &window);
    plot(0, -1, [1, 1, 1, 255], &mut frame, &window);
    plot(0, 3, [1, 1, 1, 255], &mut frame, &window);
    assert_eq!(frame, vec![0u8; 36]);
    plot(2, 2, [1, 1, 1, 255], &mut frame, &window);
    assert_eq!(pixel(&frame, 2, 2, 3), [1, 1, 1, 255]);
}
