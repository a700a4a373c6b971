//! The frame driver: the state of the animation and the step that advances
//! it by one frame.

use vstd::prelude::*;
use crate::color::{colored, convert_fire_buffer_to_screen, draw_the_palette, generate_palette, palette_spec, Color};
use crate::heat::{calculate_next_fire_frame, diffused, fill_bottom_with_random_ashes, with_bottom};
use crate::rng::default_rng;
use crate::{PALSIZE, SIZE, WIDTH};
use tinyrand::Wyrand;

verus! {

/// Everything the animation owns: the color raster, the palette, the heat
/// grid and the random source.
pub struct FireData {
    pub screen: Vec<Color>,
    pub palette: Vec<Color>,
    pub fire: Vec<u8>,
    pub rng: Wyrand,
}

impl FireData {
    /// The raster and the grid have one cell per pixel, and the palette is
    /// the heat gradient.
    pub open spec fn wf(&self) -> bool {
        &&& self.screen@.len() == SIZE
        &&& self.fire@.len() == SIZE
        &&& self.palette@ == palette_spec()
    }

    /// Advances the animation by one frame.
    pub fn advance_frame(&mut self)
        requires
            old(self).wf(),
        ensures
            final(self).wf(),
            final(self).palette == old(self).palette,
            exists|ashes: Seq<u8>|
                ashes.len() == WIDTH && final(self).fire@ == diffused(
                    #[trigger] with_bottom(old(self).fire@, ashes),
                ),
            final(self).screen@ == colored(final(self).fire@, final(self).palette@),
    {
        draw_next_frame(&mut self.screen, &mut self.fire, &self.palette, &mut self.rng);
    }
}

/// The starting state: a black opaque raster, a cold grid, the gradient
/// palette and a generator in its default state.
pub fn init_data() -> (d: FireData)
    ensures
        d.wf(),
        forall|i: int| 0 <= i < SIZE ==> #[trigger] d.fire@[i] == 0,
        forall|i: int|
            0 <= i < SIZE ==> #[trigger] d.screen@[i] == (Color { r: 0, g: 0, b: 0, a: 255 }),
{
    let mut screen: Vec<Color> = Vec::new();
    let mut fire: Vec<u8> = Vec::new();
    let mut i: usize = 0;
    while i < SIZE
        invariant
            i <= SIZE,
            screen@.len() == i,
            fire@.len() == i,
            forall|j: int| 0 <= j < i ==> #[trigger] fire@[j] == 0,
            forall|j: int|
                0 <= j < i ==> #[trigger] screen@[j] == (Color { r: 0, g: 0, b: 0, a: 255 }),
        decreases SIZE - i,
    {
        screen.push(Color { r: 0, g: 0, b: 0, a: 255 });
        fire.push(0);
        i += 1;
    }
    let palette = generate_palette();
    let rng = default_rng();
    FireData { screen, palette, fire, rng }
}

/// One frame, in a fixed order: paint the palette strip, feed ashes into
/// the bottom row, diffuse, and show the new grid through the palette.
pub fn draw_next_frame(
    screen: &mut Vec<Color>,
    fire_buf: &mut Vec<u8>,
    pal: &Vec<Color>,
    rng: &mut Wyrand,
)
    requires
        old(screen)@.len() == SIZE,
        old(fire_buf)@.len() == SIZE,
        pal@.len() == PALSIZE,
    ensures
        final(fire_buf)@.len() == SIZE,
        exists|ashes: Seq<u8>|
            ashes.len() == WIDTH && final(fire_buf)@ == diffused(
                #[trigger] with_bottom(old(fire_buf)@, ashes),
            ),
        final(screen)@ == colored(final(fire_buf)@, pal@),
{
    draw_the_palette(screen, pal);
    let ghost start = fire_buf@;
    fill_bottom_with_random_ashes(fire_buf, rng);
    let ghost ashes = choose|ashes: Seq<u8>|
        ashes.len() == WIDTH && fire_buf@ == #[trigger] with_bottom(start, ashes);
    calculate_next_fire_frame(fire_buf);
    assert(fire_buf@ == diffused(with_bottom(start, ashes)));
    convert_fire_buffer_to_screen(fire_buf, pal, screen);
}

} // verus!
