use fire::color::generate_palette;
use fire::frame::{draw_next_frame, init_data};
use fire::heat::calculate_next_fire_frame;
use fire::{HEIGHT, SIZE, WIDTH};
use tinyrand::{Seeded, Wyrand};

#[test]
fn initial_state_is_cold_and_black() {
    let d = init_data();
    assert_eq!(d.fire.len(), SIZE);
    assert_eq!(d.screen.len(), SIZE);
    assert!(d.fire.iter().all(|&h| h == 0));
    assert!(d.screen.iter().all(|c| (c.r, c.g, c.b, c.a) == (0, 0, 0, 255)));
    assert_eq!(d.palette, generate_palette());
}

#[test]
fn a_frame_injects_diffuses_then_colors() {
    let pal = generate_palette();
    let mut screen = init_data().screen;
    let mut fire: Vec<u8> = vec![0; SIZE];
    let mut rng = Wyrand::seed(3);
    draw_next_frame(&mut screen, &mut fire, &pal, &mut rng);
    let ashes = fire[SIZE - WIDTH..].to_vec();
    let mut expect = vec![0u8; SIZE];
    expect[SIZE - WIDTH..].copy_from_slice(&ashes);
    calculate_next_fire_frame(&mut expect);
    assert_eq!(fire, expect);
    for i in 0..SIZE {
        assert_eq!(screen[i], pal[fire[i] as usize]);
    }
}

#[test]
fn many_frames_keep_the_state_consistent() {
    let mut d = init_data();
    for _ in 0..40 {
        d.advance_frame();
        assert_eq!(d.fire.len(), SIZE);
        assert_eq!(d.screen.len(), SIZE);
        for i in 0..SIZE {
            assert_eq!(d.screen[i], d.palette[d.fire[i] as usize]);
        }
        for y in 0..HEIGHT - 1 {
            assert_eq!(d.fire[y * WIDTH], 0);
            assert_eq!(d.fire[y * WIDTH + WIDTH - 1], 0);
        }
    }
    assert!(d.fire[(HEIGHT - 2) * WIDTH..(HEIGHT - 1) * WIDTH].iter().any(|&h| h > 0));
}
