use shadow_rays::{draw, draw_scene, Circle};

const WHITE: [u8; 4] = [255, 255, 255, 255];
const GLOW: [u8; 4] = [255, 255, 200, 255];
const RAY: [u8; 4] = [100, 100, 0, 255];
const DARK: [u8; 4] = [0, 0, 0, 0];

fn pixel(frame: &[u8], x: usize, y: usize, width: usize) -> [u8; 4] {
    let i = (y * width + x) * 4;
    [frame[i], frame[i + 1], frame[i + 2], frame[i + 3]]
}

fn byte_sum(frame: &[u8]) -> u64 {
    frame.iter().map(|b| *b as u64).sum()
}

fn painted(frame: &[u8]) -> usize {
    (0..frame.len() / 4).filter(|i| frame[i * 4 + 3] == 255).count()
}

fn light_and_disc() -> Vec<Circle> {
    vec![
        Circle::new(0, 0, 40, GLOW).with_cursor_follow(true).with_light_emission(true),
        Circle::new(300, 300, 100, WHITE),
    ]
}

#[test]
fn two_renders_of_the_same_inputs_are_identical() {
    let scene = light_and_disc();
    let mut first = vec![0u8; 800 * 600 * 4];
    let mut second = vec![0u8; 800 * 600 * 4];
    draw_scene(&scene, &mut first, &(50, 50), &(800, 600));
    draw_scene(&scene, &mut second, &(50, 50), &(800, 600));
    assert!(first == second);
    draw_scene(&scene, &mut second, &(50, 50), &(800, 600));
    assert!(first == second);
}

#[test]
fn render_does_not_depend_on_the_old_contents() {
    let scene = light_and_disc();
    let mut blank = vec![0u8; 160 * 120 * 4];
    let mut noisy: Vec<u8> = (0..160 * 120 * 4).map(|i| (i * 7 % 256) as u8).collect();
    draw_scene(&scene, &mut blank, &(50, 50), &(160, 120));
    draw_scene(&scene, &mut noisy, &(50, 50), &(160, 120));
    assert!(blank == noisy);
}

#[test]
fn light_and_disc_scene_has_its_shadow() {
    let scene = light_and_disc();
    let mut frame = vec![7u8; 800 * 600 * 4];
    draw_scene(&scene, &mut frame, &(50, 50), &(800, 600));
    assert_eq!(pixel(&frame, 300, 300, 800), WHITE);
    assert_eq!(pixel(&frame, 50, 50, 800), GLOW);
    assert_eq!(pixel(&frame, 200, 50, 800), RAY);
    assert_eq!(pixel(&frame, 50, 200, 800), RAY);
    assert_eq!(pixel(&frame, 0, 0, 800), RAY);
    assert_eq!(pixel(&frame, 450, 450, 800), DARK);
    assert_eq!(pixel(&frame, 799, 599, 800), DARK);
    assert_eq!(painted(&frame), 94595);
    assert_eq!(byte_sum(&frame), 63422040);
}

#[test]
fn built_in_scene_has_a_disc_in_the_middle_and_a_light_at_the_pointer() {
    let mut frame = vec![3u8; 800 * 600 * 4];
    draw(&mut frame, (50, 50), 800, 600);
    assert_eq!(pixel(&frame, 400, 300, 800), WHITE);
    assert_eq!(pixel(&frame, 50, 50, 800), GLOW);
    assert_eq!(pixel(&frame, 100, 50, 800), RAY);
    assert_eq!(pixel(&frame, 700, 500, 800), DARK);
    assert_eq!(painted(&frame), 97314);
    assert_eq!(byte_sum(&frame), 64659785);
}

#[test]
fn built_in_scene_is_the_scene_of_its_two_discs() {
    let scene = [
        Circle::new(32, 24, 100, WHITE),
        Circle::new(0, 0, 40, GLOW).with_cursor_follow(true).with_light_emission(true),
    ];
    let mut built_in = vec![0u8; 64 * 48 * 4];
    let mut by_hand = vec![0u8; 64 * 48 * 4];
    draw(&mut built_in, (10, 10), 64, 48);
    draw_scene(&scene, &mut by_hand, &(10, 10), &(64, 48));
    assert!(built_in == by_hand);
    assert_eq!(painted(&built_in), 64 * 48);
    assert_eq!(byte_sum(&built_in), 3015025);
}

#[test]
fn pointer_outside_the_window_is_clamped() {
    let mut frame = vec![0u8; 800 * 600 * 4];
    draw(&mut frame, (-20, 9999), 800, 600);
    assert_eq!(pixel(&frame, 0, 599, 800), GLOW);
    assert_eq!(pixel(&frame, 40, 599, 800), GLOW);
    assert_eq!(pixel(&frame, 41, 599, 800), RAY);
    assert_eq!(byte_sum(&frame), 55890405);
    let mut corner = vec![0u8; 800 * 600 * 4];
    draw(&mut corner, (0, 599), 800, 600);
    assert!(frame == corner);
}

#[test]
fn discs_cover_the_rays_beneath_them() {
    let scene = [
        Circle::new(20, 20, 6, [10, 20, 30, 255]).with_light_emission(true),
        Circle::new(40, 20, 5, [40, 50, 60, 255]),
    ];
    let mut frame = vec![0u8; 64 * 48 * 4];
    draw_scene(&scene, &mut frame, &(0, 0), &(64, 48));
    assert_eq!(pixel(&frame, 20, 20, 64), [10, 20, 30, 255]);
    assert_eq!(pixel(&frame, 26, 20, 64), [10, 20, 30, 255]);
    assert_eq!(pixel(&frame, 30, 20, 64)[3], 255);
    assert_ne!(pixel(&frame, 30, 20, 64), [10, 20, 30, 255]);
    assert_eq!(pixel(&frame, 35, 20, 64), [40, 50, 60, 255]);
    assert_eq!(pixel(&frame, 45, 20, 64), [40, 50, 60, 255]);
    assert_eq!(pixel(&frame, 50, 20, 64), DARK);
}

#[test]
fn scene_without_lights_has_only_discs() {
    let scene = [Circle::new(5, 5, 2, WHITE), Circle::new(10, 5, 1, GLOW)];
    let mut frame = vec![9u8; 16 * 12 * 4];
    draw_scene(&scene, &mut frame, &(0, 0), &(16, 12));
    assert_eq!(painted(&frame), 13 + 5);
    assert_eq!(pixel(&frame, 5, 5, 16), WHITE);
    assert_eq!(pixel(&frame, 10, 5, 16), GLOW);
    assert_eq!(pixel(&frame, 0, 0, 16), DARK);
}

#[test]
fn empty_scene_clears_the_buffer() {
    let scene: [Circle; 0] = [];
    let mut frame = vec![200u8; 16 * 12 * 4];
    draw_scene(&scene, &mut frame, &(3, 3), &(16, 12));
    assert_eq!(frame, vec![0u8; 16 * 12 * 4]);
}

#[test]
fn smallest_window_is_one_pixel() {
    let mut frame = vec![1u8; 4];
    draw(&mut frame, (5, 5), 1, 1);
    assert_eq!(frame, vec![255, 255, 200, 255]);
}
