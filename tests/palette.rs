use fire::color::{convert_fire_buffer_to_screen, draw_the_palette, generate_palette, Color};
use fire::{PALSIZE, SIZE, WIDTH};

fn rgba(r: u8, g: u8, b: u8) -> Color {
    Color { r, g, b, a: 255 }
}

#[test]
fn palette_has_one_opaque_color_per_heat_level() {
    let pal = generate_palette();
    assert_eq!(pal.len(), PALSIZE);
    for c in &pal {
        assert_eq!(c.a, 255);
    }
}

#[test]
fn palette_runs_from_black_to_white() {
    let pal = generate_palette();
    assert_eq!(pal[0], rgba(0, 0, 0));
    assert_eq!(pal[255], rgba(255, 255, 255));
}

#[test]
fn palette_segment_boundaries_follow_the_integer_step() {
    let pal = generate_palette();
    assert_eq!(pal[1], rgba(3, 0, 0));
    assert_eq!(pal[84], rgba(252, 0, 0));
    assert_eq!(pal[84].g, 0);
    assert_eq!(pal[85], rgba(255, 0, 0));
    assert_eq!(pal[86], rgba(255, 3, 0));
    assert_eq!(pal[169], rgba(255, 252, 0));
    assert_eq!(pal[169].b, 0);
    assert_eq!(pal[170], rgba(255, 255, 0));
    assert_eq!(pal[171], rgba(255, 255, 3));
    assert_eq!(pal[254], rgba(255, 255, 252));
}

#[test]
fn palette_channels_never_decrease() {
    let pal = generate_palette();
    for i in 1..PALSIZE {
        assert!(pal[i - 1].r <= pal[i].r);
        assert!(pal[i - 1].g <= pal[i].g);
        assert!(pal[i - 1].b <= pal[i].b);
        let lum = |c: &Color| c.r as u32 + c.g as u32 + c.b as u32;
        assert!(lum(&pal[i - 1]) < lum(&pal[i]));
    }
}

#[test]
fn color_mapping_looks_up_every_cell() {
    let pal = generate_palette();
    let heat: Vec<u8> = (0..12u32).map(|i| (i * 23) as u8).collect();
    let mut screen = vec![rgba(1, 2, 3); heat.len()];
    convert_fire_buffer_to_screen(&heat, &pal, &mut screen);
    for i in 0..heat.len() {
        assert_eq!(screen[i], pal[heat[i] as usize]);
    }
    assert_eq!(screen[0], rgba(0, 0, 0));
    assert_eq!(screen[11], rgba(255, 255, 249));
}

#[test]
fn color_mapping_covers_every_heat_level() {
    let pal = generate_palette();
    let heat: Vec<u8> = (0..=255u8).collect();
    let mut screen = vec![rgba(9, 9, 9); heat.len()];
    convert_fire_buffer_to_screen(&heat, &pal, &mut screen);
    assert_eq!(screen, pal);
}

#[test]
fn palette_strip_covers_four_columns_of_the_first_rows() {
    let pal = generate_palette();
    let fill = Color { r: 7, g: 7, b: 7, a: 7 };
    let mut screen = vec![fill; SIZE];
    draw_the_palette(&mut screen, &pal);
    for i in 0..SIZE {
        let (y, x) = (i / WIDTH, i % WIDTH);
        if y < PALSIZE && (50..54).contains(&x) {
            assert_eq!(screen[i], pal[y]);
        } else {
            assert_eq!(screen[i], fill);
        }
    }
}
