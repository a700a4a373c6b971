//! The heat grid: ashes fed into its bottom row, and the weighted kernel
//! that spreads heat upwards and loses some of it to truncation.

use vstd::prelude::*;
use crate::rng::next_below;
use crate::{col, lemma_row_col, row, HEIGHT, PALSIZE, SIZE, WIDTH};
use tinyrand::Wyrand;

verus! {

/// The weighted average of a 3x2 neighborhood: `a, b, c` are the left,
/// center and right cells of the current row, `d, e, f` those of the row
/// below. The quotient is truncated.
pub open spec fn kernel(a: int, b: int, c: int, d: int, e: int, f: int) -> int {
    (10 * a + 20 * b + 10 * c + 160 * d + 320 * e + 160 * f) / 680
}

/// Whether the diffusion computes cell `i`: every row but the bottom one,
/// every column but the first and the last.
pub open spec fn is_interior(i: int) -> bool {
    row(i) < HEIGHT - 1 && 1 <= col(i) < WIDTH - 1
}

/// Heat of cell `i` after one diffusion step over `old`.
pub open spec fn diffused_at(old: Seq<u8>, i: int) -> u8 {
    if is_interior(i) {
        kernel(
            old[i - 1] as int,
            old[i] as int,
            old[i + 1] as int,
            old[i + WIDTH - 1] as int,
            old[i + WIDTH] as int,
            old[i + WIDTH + 1] as int,
        ) as u8
    } else {
        old[i]
    }
}

/// The grid after one diffusion step over `old`.
pub open spec fn diffused(old: Seq<u8>) -> Seq<u8> {
    Seq::new(old.len(), |i: int| diffused_at(old, i))
}

/// The grid `g` with its last `WIDTH` cells replaced by `ashes`.
pub open spec fn with_bottom(g: Seq<u8>, ashes: Seq<u8>) -> Seq<u8> {
    g.subrange(0, g.len() - WIDTH) + ashes
}

/// However hot its neighborhood, the kernel's average is a heat value:
/// the wide sum never leaves the range once divided.
pub proof fn kernel_stays_in_heat_range(a: u8, b: u8, c: u8, d: u8, e: u8, f: u8)
    ensures
        0 <= kernel(a as int, b as int, c as int, d as int, e as int, f as int) <= 255,
        kernel(a as int, b as int, c as int, d as int, e as int, f as int) <= max6(a, b, c, d, e, f),
{
    let m = max6(a, b, c, d, e, f) as int;
    assert(10 * a + 20 * b + 10 * c + 160 * d + 320 * e + 160 * f <= 680 * m);
}

/// The largest of six heat values.
pub open spec fn max6(a: u8, b: u8, c: u8, d: u8, e: u8, f: u8) -> u8 {
    let ab = if a >= b { a } else { b };
    let cd = if c >= d { c } else { d };
    let ef = if e >= f { e } else { f };
    let abcd = if ab >= cd { ab } else { cd };
    if abcd >= ef { abcd } else { ef }
}

/// New heat of a cell from its 3x2 neighborhood of the previous frame, in
/// 64-bit arithmetic, truncated.
pub fn kernel_value(a: u8, b: u8, c: u8, d: u8, e: u8, f: u8) -> (r: u8)
    ensures
        r == kernel(a as int, b as int, c as int, d as int, e as int, f as int),
{
    let sum: u64 = 10 * a as u64 + 20 * b as u64 + 10 * c as u64 + 160 * d as u64 + 320
        * e as u64 + 160 * f as u64;
    proof {
        kernel_stays_in_heat_range(a, b, c, d, e, f);
    }
    (sum / 680) as u8
}

/// Advances the grid one frame: every interior cell takes the kernel's
/// average of the previous frame around it; the bottom row and the first
/// and last columns keep their values.
pub fn calculate_next_fire_frame(fire_buf: &mut Vec<u8>)
    requires
        old(fire_buf)@.len() == SIZE,
    ensures
        final(fire_buf)@ == diffused(old(fire_buf)@),
        forall|i: int|
            0 <= i < SIZE && !is_interior(i) ==> #[trigger] final(fire_buf)@[i] == old(
                fire_buf,
            )@[i],
{
    let old_fire_buf = fire_buf.clone();
    assert(old_fire_buf@ =~= fire_buf@);
    let ghost start = fire_buf@;
    let mut y: usize = 0;
    while y < HEIGHT - 1
        invariant
            y <= HEIGHT - 1,
            old_fire_buf@ == start,
            start.len() == SIZE,
            fire_buf@.len() == SIZE,
            forall|i: int|
                0 <= i < SIZE ==> #[trigger] fire_buf@[i] == if is_interior(i) && i < y
                    * WIDTH {
                    diffused_at(start, i)
                } else {
                    start[i]
                },
        decreases HEIGHT - 1 - y,
    {
        let mut x: usize = 1;
        while x < WIDTH - 1
            invariant
                y < HEIGHT - 1,
                1 <= x <= WIDTH - 1,
                old_fire_buf@ == start,
                start.len() == SIZE,
                fire_buf@.len() == SIZE,
                forall|i: int|
                    0 <= i < SIZE ==> #[trigger] fire_buf@[i] == if is_interior(i) && i < y
                        * WIDTH + x {
                        diffused_at(start, i)
                    } else {
                        start[i]
                    },
            decreases WIDTH - 1 - x,
        {
            let i = y * WIDTH + x;
            proof {
                lemma_row_col(y as int, x as int);
            }
            let v = kernel_value(
                old_fire_buf[i - 1],
                old_fire_buf[i],
                old_fire_buf[i + 1],
                old_fire_buf[i - 1 + WIDTH],
                old_fire_buf[i + WIDTH],
                old_fire_buf[i + 1 + WIDTH],
            );
            fire_buf.set(i, v);
            x += 1;
        }
        proof {
            assert forall|i: int| 0 <= i < SIZE implies #[trigger] fire_buf@[i] == if is_interior(
                i,
            ) && i < (y + 1) * WIDTH {
                diffused_at(start, i)
            } else {
                start[i]
            } by {
                if i == y * WIDTH + WIDTH - 1 {
                    lemma_row_col(y as int, WIDTH - 1);
                }
            }
        }
        y += 1;
    }
    assert(fire_buf@ =~= diffused(start));
}

/// Replaces the bottom row of the grid, its last `WIDTH` cells, by `ashes`.
pub fn set_bottom_row(fire_buf: &mut Vec<u8>, ashes: &Vec<u8>)
    requires
        old(fire_buf)@.len() >= WIDTH,
        ashes@.len() == WIDTH,
    ensures
        final(fire_buf)@ == with_bottom(old(fire_buf)@, ashes@),
{
    let end = fire_buf.len();
    let start = end - WIDTH;
    let mut x: usize = 0;
    while x < WIDTH
        invariant
            fire_buf@.len() == old(fire_buf)@.len(),
            start + WIDTH == end,
            end == old(fire_buf)@.len(),
            ashes@.len() == WIDTH,
            x <= WIDTH,
            forall|i: int|
                0 <= i < fire_buf@.len() ==> #[trigger] fire_buf@[i] == if start <= i < start
                    + x {
                    ashes@[i - start]
                } else {
                    old(fire_buf)@[i]
                },
        decreases WIDTH - x,
    {
        fire_buf.set(start + x, ashes[x]);
        x += 1;
    }
    assert(fire_buf@ =~= with_bottom(old(fire_buf)@, ashes@));
}


/// Draws one row of ashes: `WIDTH` heat values, each from the 256 levels.
pub fn draw_ashes(rng: &mut Wyrand) -> (ashes: Vec<u8>)
    ensures
        ashes@.len() == WIDTH,
{
    let mut ashes: Vec<u8> = Vec::new();
    let mut x: usize = 0;
    while x < WIDTH
        invariant
            x <= WIDTH,
            ashes@.len() == x,
        decreases WIDTH - x,
    {
        let heat = next_below(rng, PALSIZE as u16);
        ashes.push(heat as u8);
        x += 1;
    }
    ashes
}

/// Fills the bottom row of the grid with fresh random heat values; the rows
/// above keep theirs.
pub fn fill_bottom_with_random_ashes(fire_buf: &mut Vec<u8>, rng: &mut Wyrand)
    requires
        old(fire_buf)@.len() >= WIDTH,
    ensures
        exists|ashes: Seq<u8>|
            ashes.len() == WIDTH && final(fire_buf)@ == #[trigger] with_bottom(
                old(fire_buf)@,
                ashes,
            ),
{
    let ashes = draw_ashes(rng);
    set_bottom_row(fire_buf, &ashes);
}


/// `g` after `n` diffusion steps, with no ashes fed in between.
pub open spec fn diffused_times(g: Seq<u8>, n: nat) -> Seq<u8>
    decreases n,
{
    if n == 0 {
        g
    } else {
        diffused(diffused_times(g, (n - 1) as nat))
    }
}

/// Every cell that diffusion leaves alone (the bottom row, the first and
/// the last column) is cold.
pub open spec fn cold_border(g: Seq<u8>) -> bool {
    forall|i: int| 0 <= i < SIZE && !is_interior(i) ==> #[trigger] g[i] == 0
}

/// Every cell from row `r` down is cold.
pub open spec fn cold_from(g: Seq<u8>, r: int) -> bool {
    forall|i: int| 0 <= i < SIZE && row(i) >= r ==> #[trigger] g[i] == 0
}

/// No cell of row `r` is hotter than `m`.
pub open spec fn row_at_most(g: Seq<u8>, r: int, m: int) -> bool {
    forall|i: int| 0 <= i < SIZE && row(i) == r ==> #[trigger] g[i] <= m
}

/// The six neighbors that the kernel reads around an interior cell lie in
/// the grid, in its own row and in the row below.
proof fn lemma_neighbors(i: int)
    requires
        0 <= i < SIZE,
        is_interior(i),
    ensures
        0 <= i - 1,
        i + WIDTH + 1 < SIZE,
        row(i - 1) == row(i),
        row(i + 1) == row(i),
        row(i + WIDTH - 1) == row(i) + 1,
        row(i + WIDTH) == row(i) + 1,
        row(i + WIDTH + 1) == row(i) + 1,
{
    let y = row(i);
    let x = col(i);
    assert(i == y * WIDTH + x);
    lemma_row_col(y, x - 1);
    lemma_row_col(y, x + 1);
    lemma_row_col(y + 1, x - 1);
    lemma_row_col(y + 1, x);
    lemma_row_col(y + 1, x + 1);
}

/// Diffusion never raises the hottest value of the grid: where every cell
/// is at most `m`, so is every cell one step later.
pub proof fn diffusion_never_heats(g: Seq<u8>, m: int)
    requires
        g.len() == SIZE,
        forall|i: int| 0 <= i < SIZE ==> #[trigger] g[i] <= m,
    ensures
        forall|i: int| 0 <= i < SIZE ==> #[trigger] diffused(g)[i] <= m,
{
    assert forall|i: int| 0 <= i < SIZE implies #[trigger] diffused(g)[i] <= m by {
        if is_interior(i) {
            lemma_neighbors(i);
            kernel_stays_in_heat_range(
                g[i - 1],
                g[i],
                g[i + 1],
                g[i + WIDTH - 1],
                g[i + WIDTH],
                g[i + WIDTH + 1],
            );
            assert(g[i + WIDTH - 1] <= m && g[i + WIDTH] <= m && g[i + WIDTH + 1] <= m);
            assert(g[i - 1] <= m && g[i] <= m && g[i + 1] <= m);
        }
    }
}

/// Cold rows at the bottom of a grid with a cold border stay cold.
proof fn lemma_stays_cold(g: Seq<u8>, r: int)
    requires
        g.len() == SIZE,
        0 <= r,
        cold_border(g),
        cold_from(g, r),
    ensures
        diffused(g).len() == SIZE,
        cold_border(diffused(g)),
        cold_from(diffused(g), r),
{
    assert forall|i: int| 0 <= i < SIZE && row(i) >= r implies #[trigger] diffused(g)[i] == 0 by {
        if is_interior(i) {
            lemma_neighbors(i);
            assert(g[i - 1] == 0 && g[i] == 0 && g[i + 1] == 0);
            assert(g[i + WIDTH - 1] == 0 && g[i + WIDTH] == 0 && g[i + WIDTH + 1] == 0);
        }
    }
}

/// Above cold rows, a row loses all but `40 / 680` of its hottest value in
/// one step: only the kernel's three light weights still see heat.
proof fn lemma_row_cools(g: Seq<u8>, r: int, m: int)
    requires
        g.len() == SIZE,
        1 <= r,
        0 <= m,
        cold_border(g),
        cold_from(g, r),
        row_at_most(g, r - 1, m),
    ensures
        row_at_most(diffused(g), r - 1, (40 * m) / 680),
{
    assert forall|i: int| 0 <= i < SIZE && row(i) == r - 1 implies #[trigger] diffused(g)[i] <= (40
        * m) / 680 by {
        if is_interior(i) {
            lemma_neighbors(i);
            let a = g[i - 1] as int;
            let b = g[i] as int;
            let c = g[i + 1] as int;
            assert(g[i + WIDTH - 1] == 0 && g[i + WIDTH] == 0 && g[i + WIDTH + 1] == 0);
            assert(a <= m && b <= m && c <= m);
            assert((10 * a + 20 * b + 10 * c) / 680 <= (40 * m) / 680) by (nonlinear_arith)
                requires
                    0 <= a <= m,
                    0 <= b <= m,
                    0 <= c <= m,
            ;
            kernel_stays_in_heat_range(
                g[i - 1],
                g[i],
                g[i + 1],
                g[i + WIDTH - 1],
                g[i + WIDTH],
                g[i + WIDTH + 1],
            );
        } else {
            assert(0 <= (40 * m) / 680) by (nonlinear_arith)
                requires
                    0 <= m,
            ;
        }
    }
}

/// After `2 * k` steps from a grid with a cold border, the bottom `k + 1`
/// rows are cold.
proof fn lemma_cold_rows(g: Seq<u8>, k: nat)
    requires
        g.len() == SIZE,
        cold_border(g),
        k <= HEIGHT - 1,
    ensures
        diffused_times(g, 2 * k).len() == SIZE,
        cold_border(diffused_times(g, 2 * k)),
        cold_from(diffused_times(g, 2 * k), HEIGHT - 1 - k),
    decreases k,
{
    if k == 0 {
        assert(cold_from(g, HEIGHT - 1));
    } else {
        lemma_cold_rows(g, (k - 1) as nat);
        let h = diffused_times(g, (2 * (k - 1)) as nat);
        let r = HEIGHT - k;
        assert(diffused_times(g, (2 * k - 1) as nat) == diffused(h));
        assert(diffused_times(g, 2 * k) == diffused(diffused(h)));
        lemma_stays_cold(h, r);
        lemma_row_cools(h, r, 255);
        lemma_stays_cold(diffused(h), r);
        lemma_row_cools(diffused(h), r, 15);
        let h2 = diffused(diffused(h));
        assert forall|i: int| 0 <= i < SIZE && row(i) >= r - 1 implies #[trigger] h2[i] == 0 by {
            if row(i) == r - 1 {
                assert(h2[i] <= (40 * 15) / 680);
            }
        }
    }
}

/// With the border cold (no ashes fed in, first and last columns cold),
/// diffusion alone puts the fire out: after `2 * (HEIGHT - 1)` steps every
/// cell is cold, and stays so.
pub proof fn fire_goes_out(g: Seq<u8>)
    requires
        g.len() == SIZE,
        cold_border(g),
    ensures
        forall|i: int|
            0 <= i < SIZE ==> #[trigger] diffused_times(g, 2 * (HEIGHT - 1) as nat)[i] == 0,
        diffused(diffused_times(g, 2 * (HEIGHT - 1) as nat)) == diffused_times(
            g,
            2 * (HEIGHT - 1) as nat,
        ),
{
    let n = 2 * (HEIGHT - 1) as nat;
    lemma_cold_rows(g, (HEIGHT - 1) as nat);
    let h = diffused_times(g, n);
    assert(cold_from(h, 0));
    lemma_stays_cold(h, 0);
    assert(diffused(h) =~= h);
}

} // verus!
