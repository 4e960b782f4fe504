use vstd::prelude::*;
use vstd::arithmetic::div_mod::lemma_fundamental_div_mod_converse;
use crate::color::Sample;
use crate::canvas::Canvas;
use crate::canvas::lemma_row_major;
use crate::color::ColorVector;
use crate::color::pixel_of;
use crate::color::pixel_to_vector;
use crate::color::random_unit_scaled;
use crate::color::vector_of;
use crate::color::vector_to_pixel;
use crate::fixed::is_floor_sqrt;
use crate::fixed::lemma_floor_sqrt_is;
use crate::mask::DirtyMask;
use crate::pixel::Pixel;
use crate::settings::Settings;

verus! {

/// One write to a cell during a pass: the cell, the cell whose visit caused
/// it, and the cell's pixel before and after.
pub struct Write {
    pub cell: int,
    pub source: int,
    pub before: Pixel,
    pub after: Pixel,
}

impl Write {
    /// Whether a neighbour bled onto the cell; otherwise the cell faded on its
    /// own visit.
    pub open spec fn is_bleed(self) -> bool {
        self.cell != self.source
    }
}

/// The state of a pass under way: the cells, the dirty flags, and every write
/// made so far, oldest first.
pub struct Pass {
    pub cells: Seq<Pixel>,
    pub dirty: Seq<bool>,
    pub log: Seq<Write>,
}

/// The eight neighbour offsets in the order in which a source visits them:
/// the four orthogonal ones, then the four diagonal ones.
pub open spec fn neighbor_offset(k: int) -> (int, int) {
    if k == 0 {
        (-1, 0)
    } else if k == 1 {
        (1, 0)
    } else if k == 2 {
        (0, -1)
    } else if k == 3 {
        (0, 1)
    } else if k == 4 {
        (1, 1)
    } else if k == 5 {
        (1, -1)
    } else if k == 6 {
        (-1, -1)
    } else {
        (-1, 1)
    }
}

/// Squared length of a pixel's colour vector.
pub open spec fn brightness(p: Pixel) -> int {
    vector_of(p).sq_len()
}

/// Whether a cell holding `p` is bright enough to bleed.
pub open spec fn spreads(p: Pixel, s: Settings) -> bool {
    brightness(p) >= s.spread_threshold
}

/// What a bleeding cell holding `p` writes onto its dimmer neighbours: its
/// colour less the noise.
pub open spec fn ink(p: Pixel, noise: ColorVector) -> Pixel {
    pixel_of(vector_of(p).minus(noise))
}

/// What a visited cell holding `p` is left with: its colour darkened, taken
/// after the noise came off where the cell bleeds, as it stood where not.
pub open spec fn residue(p: Pixel, noise: ColorVector, s: Settings) -> Pixel {
    if spreads(p, s) {
        pixel_of(vector_of(p).minus(noise).scaled(s.darken_permille))
    } else {
        pixel_of(vector_of(p).scaled(s.darken_permille))
    }
}

/// The noise vector for cell `i`; the zero vector where none was supplied.
pub open spec fn noise_at(noise: Seq<ColorVector>, i: int) -> ColorVector {
    if 0 <= i < noise.len() {
        noise[i]
    } else {
        ColorVector::zero()
    }
}

/// The source at `(x, y)` of brightness `level` offers `color` to its `k`-th
/// neighbour: a neighbour inside the grid, not dirty, and strictly dimmer than
/// the source takes the colour and becomes dirty. Nothing else changes.
pub open spec fn bleed(
    pass: Pass,
    width: int,
    height: int,
    x: int,
    y: int,
    k: int,
    level: int,
    color: Pixel,
) -> Pass {
    let nx = x + neighbor_offset(k).0;
    let ny = y + neighbor_offset(k).1;
    let n = ny * width + nx;
    if 0 <= nx < width && 0 <= ny < height && !pass.dirty[n] && brightness(pass.cells[n]) < level {
        Pass {
            cells: pass.cells.update(n, color),
            dirty: pass.dirty.update(n, true),
            log: pass.log.push(
                Write { cell: n, source: y * width + x, before: pass.cells[n], after: color },
            ),
        }
    } else {
        pass
    }
}

/// The pass after the source at `(x, y)` has offered `color` to the first
/// `count` of its neighbours.
pub open spec fn bleed_all(
    pass: Pass,
    width: int,
    height: int,
    x: int,
    y: int,
    count: nat,
    level: int,
    color: Pixel,
) -> Pass
    decreases count,
{
    if count == 0 {
        pass
    } else {
        bleed(
            bleed_all(pass, width, height, x, y, (count - 1) as nat, level, color),
            width,
            height,
            x,
            y,
            count - 1,
            level,
            color,
        )
    }
}

/// The pass after the visit of the cell at `(x, y)`. A dirty cell is skipped.
/// Any other cell, where it is bright enough, first offers its ink to its
/// eight neighbours; then it is left with its residue.
pub open spec fn visit(
    pass: Pass,
    width: int,
    height: int,
    x: int,
    y: int,
    noise: ColorVector,
    s: Settings,
) -> Pass {
    let i = y * width + x;
    let p = pass.cells[i];
    if pass.dirty[i] {
        pass
    } else {
        let spread = if spreads(p, s) {
            bleed_all(pass, width, height, x, y, 8, brightness(p), ink(p, noise))
        } else {
            pass
        };
        Pass {
            cells: spread.cells.update(i, residue(p, noise, s)),
            dirty: spread.dirty,
            log: spread.log.push(
                Write { cell: i, source: i, before: p, after: residue(p, noise, s) },
            ),
        }
    }
}

/// A pass before its first visit: the cells as given, no flag set, nothing
/// written.
pub open spec fn fresh_pass(initial: Seq<Pixel>) -> Pass {
    Pass { cells: initial, dirty: Seq::new(initial.len(), |i: int| false), log: Seq::empty() }
}

/// The pass after the first `count` cells in raster order have been visited:
/// row by row from the top, each row from the left.
pub open spec fn pass_upto(
    initial: Seq<Pixel>,
    width: int,
    height: int,
    noise: Seq<ColorVector>,
    s: Settings,
    count: nat,
) -> Pass
    decreases count,
{
    if count == 0 || width <= 0 {
        fresh_pass(initial)
    } else {
        let i = count - 1;
        visit(
            pass_upto(initial, width, height, noise, s, i as nat),
            width,
            height,
            i % width,
            i / width,
            noise_at(noise, i),
            s,
        )
    }
}

/// The pass after every cell has been visited.
pub open spec fn full_pass(
    initial: Seq<Pixel>,
    width: int,
    height: int,
    noise: Seq<ColorVector>,
    s: Settings,
) -> Pass {
    pass_upto(initial, width, height, noise, s, (width * height) as nat)
}

/// Whether the canvas and the mask hold the cells and the flags of `pass`, on
/// a grid of the same dimensions.
spec fn holds(canvas: Canvas, mask: DirtyMask, pass: Pass) -> bool {
    &&& mask.spec_width() == canvas.spec_width()
    &&& mask.spec_height() == canvas.spec_height()
    &&& canvas@.len() == canvas.spec_width() * canvas.spec_height()
    &&& canvas@ == pass.cells
    &&& mask@ == pass.dirty
}

/// The `k`-th neighbour offset.
fn offset(k: u8) -> (d: (i8, i8))
    requires
        k < 8,
    ensures
        d.0 == neighbor_offset(k as int).0,
        d.1 == neighbor_offset(k as int).1,
{
    if k == 0 {
        (-1, 0)
    } else if k == 1 {
        (1, 0)
    } else if k == 2 {
        (0, -1)
    } else if k == 3 {
        (0, 1)
    } else if k == 4 {
        (1, 1)
    } else if k == 5 {
        (1, -1)
    } else if k == 6 {
        (-1, -1)
    } else {
        (-1, 1)
    }
}

/// Squared length of a pixel's colour vector.
fn brightness_of(p: &Pixel) -> (level: u64)
    ensures
        level == brightness(*p),
{
    pixel_to_vector(p).sq_length()
}

/// Offers `color` to the `k`-th neighbour of the source at `(x, y)`, whose
/// brightness is `level`.
fn offer(
    canvas: &mut Canvas,
    mask: &mut DirtyMask,
    x: u32,
    y: u32,
    k: u8,
    level: u64,
    color: Pixel,
    Ghost(pass): Ghost<Pass>,
)
    requires
        holds(*old(canvas), *old(mask), pass),
        old(canvas).in_bounds(x as int, y as int),
        k < 8,
    ensures
        final(canvas).spec_width() == old(canvas).spec_width(),
        final(canvas).spec_height() == old(canvas).spec_height(),
        holds(
            *final(canvas),
            *final(mask),
            bleed(
                pass,
                old(canvas).spec_width() as int,
                old(canvas).spec_height() as int,
                x as int,
                y as int,
                k as int,
                level as int,
                color,
            ),
        ),
{
    let d = offset(k);
    let nx: i64 = x as i64 + d.0 as i64;
    let ny: i64 = y as i64 + d.1 as i64;
    let width: u32 = canvas.width();
    let height: u32 = canvas.height();
    if nx < 0 || nx >= width as i64 || ny < 0 || ny >= height as i64 {
        return ;
    }
    let nx: u32 = nx as u32;
    let ny: u32 = ny as u32;
    proof {
        lemma_row_major(nx as int, ny as int, width as int, height as int);
    }
    if mask.is_dirty(nx, ny) {
        return ;
    }
    let there: Pixel = canvas.get(nx, ny);
    if brightness_of(&there) < level {
        canvas.put(nx, ny, color);
        mask.mark(nx, ny);
    }
}

/// Visits the cell at `(x, y)`.
fn visit_cell(
    canvas: &mut Canvas,
    mask: &mut DirtyMask,
    x: u32,
    y: u32,
    noise: ColorVector,
    settings: &Settings,
    Ghost(pass): Ghost<Pass>,
)
    requires
        holds(*old(canvas), *old(mask), pass),
        old(canvas).in_bounds(x as int, y as int),
    ensures
        final(canvas).spec_width() == old(canvas).spec_width(),
        final(canvas).spec_height() == old(canvas).spec_height(),
        holds(
            *final(canvas),
            *final(mask),
            visit(
                pass,
                old(canvas).spec_width() as int,
                old(canvas).spec_height() as int,
                x as int,
                y as int,
                noise,
                *settings,
            ),
        ),
{
    proof {
        lemma_row_major(
            x as int,
            y as int,
            canvas.spec_width() as int,
            canvas.spec_height() as int,
        );
    }
    if mask.is_dirty(x, y) {
        return ;
    }
    let width: Ghost<int> = Ghost(canvas.spec_width() as int);
    let height: Ghost<int> = Ghost(canvas.spec_height() as int);
    let here: Pixel = canvas.get(x, y);
    let mut color: ColorVector = pixel_to_vector(&here);
    let level: u64 = color.sq_length();
    let ghost mut current: Pass = pass;
    if level >= settings.spread_threshold {
        color = color.sub(&noise);
        let bleeding: Pixel = vector_to_pixel(color);
        let mut k: u8 = 0;
        while k < 8
            invariant
                k <= 8,
                canvas.spec_width() == width@,
                canvas.spec_height() == height@,
                canvas.in_bounds(x as int, y as int),
                holds(*canvas, *mask, current),
                current == bleed_all(
                    pass,
                    width@,
                    height@,
                    x as int,
                    y as int,
                    k as nat,
                    level as int,
                    bleeding,
                ),
            decreases 8 - k,
        {
            offer(canvas, mask, x, y, k, level, bleeding, Ghost(current));
            proof {
                current = bleed(
                    current,
                    width@,
                    height@,
                    x as int,
                    y as int,
                    k as int,
                    level as int,
                    bleeding,
                );
            }
            k = k + 1;
        }
    }
    color = color.scale(settings.darken_permille);
    canvas.put(x, y, vector_to_pixel(color));
}

/// The noise vector for the cell with row-major index `i`; the zero vector
/// where the supply is too short.
fn noise_for(noise: &Vec<ColorVector>, i: u64) -> (v: ColorVector)
    ensures
        v == noise_at(noise@, i as int),
{
    if i < noise.len() as u64 {
        noise[i as usize]
    } else {
        ColorVector { r: 0, g: 0, b: 0 }
    }
}

/// One diffusion pass over the whole canvas with the noise supplied: the cells
/// are visited in raster order, and cell `i` takes `noise[i]` off its colour if
/// it bleeds. Cells beyond the end of `noise` lose none.
pub fn step_with(canvas: &mut Canvas, noise: &Vec<ColorVector>, settings: &Settings)
    ensures
        final(canvas).spec_width() == old(canvas).spec_width(),
        final(canvas).spec_height() == old(canvas).spec_height(),
        final(canvas)@ == full_pass(
            old(canvas)@,
            old(canvas).spec_width() as int,
            old(canvas).spec_height() as int,
            noise@,
            *settings,
        ).cells,
{
    let width: u32 = canvas.width();
    let height: u32 = canvas.height();
    let ghost initial: Seq<Pixel> = canvas@;
    let ghost mut pass: Pass = fresh_pass(initial);
    assert(0 <= width * height <= 4 * width * height) by (nonlinear_arith);
    assert(isize::MAX <= usize::MAX);
    let mut mask: DirtyMask = DirtyMask::new(width, height).unwrap();
    assert(mask@ =~= pass.dirty);
    let mut y: u32 = 0;
    while y < height
        invariant
            y <= height,
            canvas.spec_width() == width,
            canvas.spec_height() == height,
            4 * width * height <= isize::MAX,
            holds(*canvas, mask, pass),
            pass == pass_upto(initial, width as int, height as int, noise@, *settings, (y * width) as nat),
        decreases height - y,
    {
        let mut x: u32 = 0;
        while x < width
            invariant
                x <= width,
                y < height,
                canvas.spec_width() == width,
                canvas.spec_height() == height,
                4 * width * height <= isize::MAX,
                holds(*canvas, mask, pass),
                pass == pass_upto(
                    initial,
                    width as int,
                    height as int,
                    noise@,
                    *settings,
                    (y * width + x) as nat,
                ),
            decreases width - x,
        {
            proof {
                lemma_row_major(x as int, y as int, width as int, height as int);
                lemma_fundamental_div_mod_converse(
                    y * width + x,
                    width as int,
                    y as int,
                    x as int,
                );
                assert(0 <= y * width && width * height <= 4 * width * height)
                    by (nonlinear_arith);
            }
            let i: u64 = (y as u64) * (width as u64) + (x as u64);
            visit_cell(canvas, &mut mask, x, y, noise_for(noise, i), settings, Ghost(pass));
            proof {
                pass = visit(
                    pass,
                    width as int,
                    height as int,
                    x as int,
                    y as int,
                    noise_at(noise@, i as int),
                    *settings,
                );
            }
            x = x + 1;
        }
        assert(y * width + width == (y + 1) * width) by (nonlinear_arith);
        y = y + 1;
    }
    assert(height * width == width * height) by (nonlinear_arith);
}

/// Whether `v` is the direction of some three samples scaled to `magnitude`.
pub open spec fn is_noise(v: ColorVector, magnitude: u32) -> bool {
    exists|sample: Sample| v == sample.unit_scaled(magnitude)
}

/// Whether every vector of `noise` is a direction scaled to `magnitude`, one
/// for each of `cells` cells.
pub open spec fn is_noise_field(noise: Seq<ColorVector>, cells: int, magnitude: u32) -> bool {
    &&& noise.len() == cells
    &&& forall|i: int| 0 <= i < noise.len() ==> is_noise(#[trigger] noise[i], magnitude)
}

/// Draws a noise vector of the configured magnitude for each cell that is
/// bright enough to bleed, and the zero vector for every other cell, in
/// raster order.
pub fn draw_noise(canvas: &Canvas, settings: &Settings) -> (noise: Vec<ColorVector>)
    ensures
        is_noise_field(
            noise@,
            (canvas.spec_width() * canvas.spec_height()) as int,
            settings.perturb_magnitude,
        ),
        forall|i: int|
            0 <= i < noise@.len() && !spreads(canvas@[i], *settings) ==> #[trigger] noise@[i]
                == ColorVector::zero(),
{
    let width: u32 = canvas.width();
    let height: u32 = canvas.height();
    let mut noise: Vec<ColorVector> = Vec::new();
    let mut y: u32 = 0;
    while y < height
        invariant
            y <= height,
            canvas.spec_width() == width,
            canvas.spec_height() == height,
            is_noise_field(noise@, y * width, settings.perturb_magnitude),
            forall|i: int|
                0 <= i < noise@.len() && !spreads(canvas@[i], *settings) ==> #[trigger] noise@[i]
                    == ColorVector::zero(),
        decreases height - y,
    {
        let mut x: u32 = 0;
        while x < width
            invariant
                x <= width,
                y < height,
                canvas.spec_width() == width,
                canvas.spec_height() == height,
                is_noise_field(noise@, y * width + x, settings.perturb_magnitude),
                forall|i: int|
                    0 <= i < noise@.len() && !spreads(canvas@[i], *settings) ==> #[trigger] noise@[i]
                        == ColorVector::zero(),
            decreases width - x,
        {
            let here: Pixel = canvas.get(x, y);
            let v: ColorVector = if brightness_of(&here) >= settings.spread_threshold {
                random_unit_scaled(settings.perturb_magnitude)
            } else {
                still(settings.perturb_magnitude)
            };
            noise.push(v);
            x = x + 1;
        }
        assert(y * width + width == (y + 1) * width) by (nonlinear_arith);
        y = y + 1;
    }
    assert(height * width == width * height) by (nonlinear_arith);
    noise
}

/// The zero vector: the direction of three zero samples, whatever the
/// magnitude.
fn still(magnitude: u32) -> (v: ColorVector)
    ensures
        v == ColorVector::zero(),
        is_noise(v, magnitude),
{
    let v = ColorVector { r: 0, g: 0, b: 0 };
    proof {
        let sample = Sample { r: 0, g: 0, b: 0 };
        assert(sample.sq_len() == 0);
        assert(is_floor_sqrt(0, 0)) by (nonlinear_arith);
        lemma_floor_sqrt_is(0, 0);
        assert(v == sample.unit_scaled(magnitude));
    }
    v
}

/// One diffusion pass over the whole canvas. Each cell that is bright enough
/// to bleed gets a freshly drawn noise vector of the configured magnitude; the
/// pass then runs as `step_with` does on those vectors.
pub fn step(canvas: &mut Canvas, settings: &Settings)
    ensures
        final(canvas).spec_width() == old(canvas).spec_width(),
        final(canvas).spec_height() == old(canvas).spec_height(),
        exists|noise: Seq<ColorVector>|
            {
                &&& is_noise_field(
                    noise,
                    (old(canvas).spec_width() * old(canvas).spec_height()) as int,
                    settings.perturb_magnitude,
                )
                &&& final(canvas)@ == #[trigger] full_pass(
                    old(canvas)@,
                    old(canvas).spec_width() as int,
                    old(canvas).spec_height() as int,
                    noise,
                    *settings,
                ).cells
            },
{
    let noise: Vec<ColorVector> = draw_noise(canvas, settings);
    step_with(canvas, &noise, settings);
}

} // verus!
