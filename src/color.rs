//! Colors, the heat palette, and the mapping from heat to color.

use vstd::prelude::*;
use crate::{col, lemma_row_col, row, PALSIZE, SIZE, WIDTH};

verus! {

/// An RGBA color, eight bits per channel.
#[derive(Clone, Copy, Debug, PartialEq, Eq, Structural)]
pub struct Color {
    pub r: u8,
    pub g: u8,
    pub b: u8,
    pub a: u8,
}

/// Length of each of the three ramps of the palette.
pub const SEGMENT: usize = 85;

/// Per-step increment of a ramp: an integer quotient, so that the ramps are
/// quantized rather than interpolated.
pub const STEP: usize = 255 / SEGMENT;

/// First column of the palette strip.
pub const STRIP_COLUMN: usize = 50;

/// Width of the palette strip, in columns.
pub const STRIP_WIDTH: usize = 4;

/// Value of a ramp `k` steps after its start.
pub open spec fn ramp(k: int) -> int {
    k * (STEP as int)
}

/// Color of heat level `i`: black to red, red to yellow, yellow to white.
pub open spec fn palette_color(i: int) -> Color {
    if i < SEGMENT {
        Color { r: ramp(i) as u8, g: 0, b: 0, a: 255 }
    } else if i < 2 * SEGMENT {
        Color { r: 255, g: ramp(i - SEGMENT) as u8, b: 0, a: 255 }
    } else {
        Color { r: 255, g: 255, b: ramp(i - 2 * SEGMENT) as u8, a: 255 }
    }
}

/// The whole palette, indexed by heat level.
pub open spec fn palette_spec() -> Seq<Color> {
    Seq::new(PALSIZE as nat, |i: int| palette_color(i))
}

/// The raster that shows each heat value of `heat` through `pal`.
pub open spec fn colored(heat: Seq<u8>, pal: Seq<Color>) -> Seq<Color> {
    Seq::new(heat.len(), |i: int| pal[heat[i] as int])
}

/// Whether flat index `i` lies in the palette strip: one row per heat
/// level, `STRIP_WIDTH` columns from `STRIP_COLUMN` on.
pub open spec fn in_strip(i: int) -> bool {
    row(i) < PALSIZE && STRIP_COLUMN <= col(i) < STRIP_COLUMN + STRIP_WIDTH
}

/// The palette's ramps fit in a byte: the largest step count is a full
/// segment, which reaches exactly 255.
proof fn lemma_ramp_fits(k: int)
    requires
        0 <= k <= SEGMENT,
    ensures
        0 <= ramp(k) <= 255,
{
}

/// Builds the 256-color gradient from black through red and yellow to white.
pub fn generate_palette() -> (pal: Vec<Color>)
    ensures
        pal@ == palette_spec(),
{
    let mut pal: Vec<Color> = Vec::new();
    let mut i: usize = 0;
    while i < PALSIZE
        invariant
            i <= PALSIZE,
            pal@.len() == i,
            forall|j: int| 0 <= j < i ==> pal@[j] == palette_color(j),
        decreases PALSIZE - i,
    {
        let c = if i < SEGMENT {
            Color { r: (i * STEP) as u8, g: 0, b: 0, a: 255 }
        } else if i < 2 * SEGMENT {
            Color { r: 255, g: ((i - SEGMENT) * STEP) as u8, b: 0, a: 255 }
        } else {
            Color { r: 255, g: 255, b: ((i - 2 * SEGMENT) * STEP) as u8, a: 255 }
        };
        pal.push(c);
        i += 1;
    }
    assert(pal@ =~= palette_spec());
    pal
}

/// Every color of the palette is opaque; it runs from black to white, and
/// no channel ever decreases from one heat level to the next.
pub proof fn palette_is_graded()
    ensures
        forall|i: int| 0 <= i < PALSIZE ==> #[trigger] palette_spec()[i].a == 255,
        palette_spec()[0] == (Color { r: 0, g: 0, b: 0, a: 255 }),
        palette_spec()[255] == (Color { r: 255, g: 255, b: 255, a: 255 }),
        forall|i: int, j: int|
            0 <= i <= j < PALSIZE ==> {
                &&& #[trigger] palette_spec()[i].r <= #[trigger] palette_spec()[j].r
                &&& palette_spec()[i].g <= palette_spec()[j].g
                &&& palette_spec()[i].b <= palette_spec()[j].b
            },
{
    assert forall|i: int, j: int| 0 <= i <= j < PALSIZE implies {
        &&& #[trigger] palette_spec()[i].r <= #[trigger] palette_spec()[j].r
        &&& palette_spec()[i].g <= palette_spec()[j].g
        &&& palette_spec()[i].b <= palette_spec()[j].b
    } by {
        if i < SEGMENT {
            lemma_ramp_fits(i);
        } else if i < 2 * SEGMENT {
            lemma_ramp_fits(i - SEGMENT);
        } else {
            lemma_ramp_fits(i - 2 * SEGMENT);
        }
        if j < SEGMENT {
            lemma_ramp_fits(j);
        } else if j < 2 * SEGMENT {
            lemma_ramp_fits(j - SEGMENT);
        } else {
            lemma_ramp_fits(j - 2 * SEGMENT);
        }
    }
}

/// Paints the palette as a vertical strip of the raster: row `y` of the
/// strip takes color `pal[y]`. The rest of the raster is left as it was.
pub fn draw_the_palette(screen: &mut Vec<Color>, pal: &Vec<Color>)
    requires
        old(screen)@.len() == SIZE,
        pal@.len() == PALSIZE,
    ensures
        final(screen)@.len() == SIZE,
        forall|i: int|
            0 <= i < SIZE ==> #[trigger] final(screen)@[i] == if in_strip(i) {
                pal@[row(i)]
            } else {
                old(screen)@[i]
            },
{
    let mut y: usize = 0;
    while y < pal.len()
        invariant
            y <= PALSIZE,
            pal@.len() == PALSIZE,
            screen@.len() == SIZE,
            forall|i: int|
                0 <= i < SIZE ==> #[trigger] screen@[i] == if in_strip(i) && row(i) < y {
                    pal@[row(i)]
                } else {
                    old(screen)@[i]
                },
        decreases PALSIZE - y,
    {
        let init = y * WIDTH + STRIP_COLUMN;
        let before = Ghost(screen@);
        screen.set(init, pal[y]);
        screen.set(init + 1, pal[y]);
        screen.set(init + 2, pal[y]);
        screen.set(init + 3, pal[y]);
        proof {
            lemma_row_col(y as int, STRIP_COLUMN as int);
            lemma_row_col(y as int, STRIP_COLUMN + 1);
            lemma_row_col(y as int, STRIP_COLUMN + 2);
            lemma_row_col(y as int, STRIP_COLUMN + 3);
            assert forall|i: int| 0 <= i < SIZE implies #[trigger] screen@[i] == if in_strip(i)
                && row(i) < y + 1 {
                pal@[row(i)]
            } else {
                old(screen)@[i]
            } by {
                if init <= i < init + 4 {
                } else {
                    assert(screen@[i] == before@[i]);
                    if in_strip(i) && row(i) == y {
                        lemma_row_col(y as int, col(i));
                        assert(i == y * WIDTH + col(i));
                    }
                }
            }
        }
        y += 1;
    }
}

/// Writes into `screen` the palette color of each heat value of `fire_buf`.
pub fn convert_fire_buffer_to_screen(fire_buf: &Vec<u8>, pal: &Vec<Color>, screen: &mut Vec<Color>)
    requires
        pal@.len() == PALSIZE,
        old(screen)@.len() == fire_buf@.len(),
    ensures
        final(screen)@ == colored(fire_buf@, pal@),
{
    let mut i: usize = 0;
    while i < fire_buf.len()
        invariant
            pal@.len() == PALSIZE,
            screen@.len() == fire_buf@.len(),
            i <= fire_buf@.len(),
            forall|j: int| 0 <= j < i ==> #[trigger] screen@[j] == pal@[fire_buf@[j] as int],
        decreases fire_buf@.len() - i,
    {
        let heat = fire_buf[i] as usize;
        screen.set(i, pal[heat]);
        i += 1;
    }
    assert(screen@ =~= colored(fire_buf@, pal@));
}

} // verus!
