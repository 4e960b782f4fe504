use vstd::prelude::*;
use vstd::arithmetic::div_mod::lemma_fundamental_div_mod;
use vstd::arithmetic::div_mod::lemma_fundamental_div_mod_converse;
use vstd::arithmetic::div_mod::lemma_div_pos_is_pos;
use vstd::arithmetic::div_mod::lemma_mod_pos_bound;
use crate::canvas::lemma_row_major;
use crate::color::ColorVector;
use crate::color::lemma_scaling_darkens;
use crate::color::pixel_of;
use crate::color::vector_of;
use crate::diffusion::Pass;
use crate::diffusion::Write;
use crate::diffusion::bleed;
use crate::diffusion::bleed_all;
use crate::diffusion::brightness;
use crate::diffusion::fresh_pass;
use crate::diffusion::full_pass;
use crate::diffusion::ink;
use crate::diffusion::neighbor_offset;
use crate::diffusion::noise_at;
use crate::diffusion::pass_upto;
use crate::diffusion::residue;
use crate::diffusion::spreads;
use crate::diffusion::visit;
use crate::pixel::Pixel;
use crate::settings::Settings;

verus! {

/// What a pass starts from: the cells, the grid's dimensions, the noise and
/// the settings.
struct Run {
    initial: Seq<Pixel>,
    width: int,
    height: int,
    noise: Seq<ColorVector>,
    settings: Settings,
}

impl Run {
    /// Whether the cells fill a grid of the given dimensions.
    spec fn well_formed(self) -> bool {
        &&& 0 <= self.width
        &&& 0 <= self.height
        &&& self.initial.len() == self.width * self.height
    }

    /// The pass after the first `count` visits.
    spec fn upto(self, count: nat) -> Pass {
        pass_upto(self.initial, self.width, self.height, self.noise, self.settings, count)
    }

    /// The pass after every visit.
    spec fn full(self) -> Pass {
        full_pass(self.initial, self.width, self.height, self.noise, self.settings)
    }
}

/// The row-major index of the `k`-th neighbour of the cell with index
/// `source`, or -1 where that neighbour lies outside the grid.
pub open spec fn neighbor_at(width: int, height: int, source: int, k: int) -> int {
    let nx = source % width + neighbor_offset(k).0;
    let ny = source / width + neighbor_offset(k).1;
    if 0 <= nx < width && 0 <= ny < height {
        ny * width + nx
    } else {
        -1
    }
}

/// Whether `cell` is one of the eight neighbours of `source` inside the grid.
pub open spec fn is_neighbor(width: int, height: int, source: int, cell: int) -> bool {
    exists|k: int| 0 <= k < 8 && cell >= 0 && #[trigger] neighbor_at(width, height, source, k) == cell
}

/// Whether entry `j` of the log records a neighbour bleeding onto `cell`.
pub open spec fn bled_at(log: Seq<Write>, cell: int, j: int) -> bool {
    0 <= j < log.len() && log[j].cell == cell && log[j].is_bleed()
}

/// What holds of a pass once the first `visited` cells in raster order have
/// had their visit, and during the visit of the next.
spec fn sound(run: Run, visited: int, pass: Pass) -> bool {
    let cells = run.width * run.height;
    &&& pass.cells.len() == cells
    &&& pass.dirty.len() == cells
    // A cell not yet visited and not dirty is as it was.
    &&& forall|c: int|
        visited <= c < cells && !#[trigger] pass.dirty[c] ==> pass.cells[c] == run.initial[c]
    // A visited cell that is not dirty holds its own residue.
    &&& forall|c: int|
        0 <= c < visited && c < cells && !#[trigger] pass.dirty[c] ==> pass.cells[c] == residue(
            run.initial[c],
            noise_at(run.noise, c),
            run.settings,
        )
    // Every write names cells of the grid.
    &&& forall|j: int|
        0 <= j < pass.log.len() ==> 0 <= (#[trigger] pass.log[j]).cell < cells && 0
            <= pass.log[j].source < cells
    // A cell that was bled onto is dirty and still holds the ink it was given.
    &&& forall|j: int|
        0 <= j < pass.log.len() && (#[trigger] pass.log[j]).is_bleed() ==> {
            &&& pass.dirty[pass.log[j].cell]
            &&& pass.cells[pass.log[j].cell] == pass.log[j].after
            &&& pass.log[j].after == ink(
                run.initial[pass.log[j].source],
                noise_at(run.noise, pass.log[j].source),
            )
        }
    // A dirty cell was bled onto.
    &&& forall|c: int|
        0 <= c < cells && #[trigger] pass.dirty[c] ==> exists|j: int| bled_at(pass.log, c, j)
    // Nothing is written to a cell after a neighbour bled onto it.
    &&& forall|i: int, j: int|
        0 <= i < j < pass.log.len() && (#[trigger] pass.log[i]).cell == (
        #[trigger] pass.log[j]).cell ==> !pass.log[i].is_bleed()
    // A neighbour bleeds only onto a cell that is strictly dimmer than the
    // neighbour was when the pass began; a cell later in raster order is
    // then still as it was when the pass began.
    &&& forall|j: int|
        0 <= j < pass.log.len() && (#[trigger] pass.log[j]).is_bleed() ==> {
            &&& brightness(pass.log[j].before) < brightness(run.initial[pass.log[j].source])
            &&& spreads(run.initial[pass.log[j].source], run.settings)
            &&& pass.log[j].cell > pass.log[j].source ==> pass.log[j].before
                == run.initial[pass.log[j].cell]
        }
    // A bleed lands on one of the eight neighbours of its source.
    &&& forall|j: int|
        0 <= j < pass.log.len() && (#[trigger] pass.log[j]).is_bleed() ==> is_neighbor(
            run.width,
            run.height,
            pass.log[j].source,
            pass.log[j].cell,
        )
    // A cell that was bled onto is not the source of any later write.
    &&& forall|i: int, j: int|
        0 <= i < j < pass.log.len() && (#[trigger] pass.log[i]).is_bleed() ==> (
        #[trigger] pass.log[j]).source != pass.log[i].cell
}

/// A neighbour inside the grid has a row-major index inside the cells, and it
/// is not the index of the source.
proof fn lemma_neighbor_index(width: int, height: int, x: int, y: int, k: int)
    requires
        0 <= x < width,
        0 <= y < height,
        0 <= k < 8,
        0 <= x + neighbor_offset(k).0 < width,
        0 <= y + neighbor_offset(k).1 < height,
    ensures
        0 <= (y + neighbor_offset(k).1) * width + (x + neighbor_offset(k).0) < width * height,
        (y + neighbor_offset(k).1) * width + (x + neighbor_offset(k).0) != y * width + x,
        neighbor_at(width, height, y * width + x, k) == (y + neighbor_offset(k).1) * width + (x
            + neighbor_offset(k).0),
{
    let nx = x + neighbor_offset(k).0;
    let ny = y + neighbor_offset(k).1;
    lemma_row_major(nx, ny, width, height);
    assert((y + 1) * width == y * width + width) by (nonlinear_arith);
    assert((y - 1) * width == y * width - width) by (nonlinear_arith);
    lemma_fundamental_div_mod_converse(y * width + x, width, y, x);
}

/// Offering ink to one neighbour keeps a pass sound.
proof fn lemma_bleed_sound(run: Run, pass: Pass, x: int, y: int, k: int)
    requires
        run.well_formed(),
        0 <= x < run.width,
        0 <= y < run.height,
        0 <= k < 8,
        sound(run, y * run.width + x, pass),
        !pass.dirty[y * run.width + x],
        spreads(run.initial[y * run.width + x], run.settings),
    ensures
        sound(
            run,
            y * run.width + x,
            bleed(
                pass,
                run.width,
                run.height,
                x,
                y,
                k,
                brightness(run.initial[y * run.width + x]),
                ink(run.initial[y * run.width + x], noise_at(run.noise, y * run.width + x)),
            ),
        ),
        !bleed(
            pass,
            run.width,
            run.height,
            x,
            y,
            k,
            brightness(run.initial[y * run.width + x]),
            ink(run.initial[y * run.width + x], noise_at(run.noise, y * run.width + x)),
        ).dirty[y * run.width + x],
{
    let src = y * run.width + x;
    let level = brightness(run.initial[src]);
    let color = ink(run.initial[src], noise_at(run.noise, src));
    let after = bleed(pass, run.width, run.height, x, y, k, level, color);
    let nx = x + neighbor_offset(k).0;
    let ny = y + neighbor_offset(k).1;
    let n = ny * run.width + nx;
    lemma_row_major(x, y, run.width, run.height);
    if 0 <= nx < run.width && 0 <= ny < run.height && !pass.dirty[n] && brightness(pass.cells[n])
        < level {
        lemma_neighbor_index(run.width, run.height, x, y, k);
        let len = pass.log.len() as int;
        assert(after.log.len() == len + 1);
        assert(after.log[len].cell == n && after.log[len].is_bleed());
        assert forall|j: int| 0 <= j < len implies after.log[j] == pass.log[j] by {}
        assert forall|c: int| 0 <= c < run.width * run.height && #[trigger] after.dirty[c] implies exists|
            j: int,
        | bled_at(after.log, c, j) by {
            if c == n {
                assert(bled_at(after.log, c, len));
            } else {
                assert(pass.dirty[c]);
                let j = choose|j: int| bled_at(pass.log, c, j);
                assert(bled_at(after.log, c, j));
            }
        }
        assert forall|i: int, j: int|
            0 <= i < j < after.log.len() && (#[trigger] after.log[i]).cell == (
            #[trigger] after.log[j]).cell implies !after.log[i].is_bleed() by {
            if j == len {
                assert(after.log[i] == pass.log[i]);
                if pass.log[i].is_bleed() {
                    assert(pass.dirty[pass.log[i].cell]);
                }
            } else {
                assert(after.log[i] == pass.log[i]);
                assert(after.log[j] == pass.log[j]);
            }
        }
        assert forall|j: int|
            0 <= j < after.log.len() && (#[trigger] after.log[j]).is_bleed() implies {
            &&& after.dirty[after.log[j].cell]
            &&& after.cells[after.log[j].cell] == after.log[j].after
            &&& after.log[j].after == ink(
                run.initial[after.log[j].source],
                noise_at(run.noise, after.log[j].source),
            )
        } by {
            if j < len {
                assert(after.log[j] == pass.log[j]);
                assert(pass.dirty[pass.log[j].cell]);
            }
        }
        assert forall|j: int|
            0 <= j < after.log.len() && (#[trigger] after.log[j]).is_bleed() implies {
            &&& brightness(after.log[j].before) < brightness(run.initial[after.log[j].source])
            &&& spreads(run.initial[after.log[j].source], run.settings)
            &&& after.log[j].cell > after.log[j].source ==> after.log[j].before
                == run.initial[after.log[j].cell]
        } by {
            if j < len {
                assert(after.log[j] == pass.log[j]);
            }
        }
        assert forall|j: int| 0 <= j < after.log.len() implies 0 <= (#[trigger] after.log[j]).cell
            < run.width * run.height && 0 <= after.log[j].source < run.width * run.height by {
            if j < len {
                assert(after.log[j] == pass.log[j]);
            }
        }
        assert forall|j: int|
            0 <= j < after.log.len() && (#[trigger] after.log[j]).is_bleed() implies is_neighbor(
            run.width,
            run.height,
            after.log[j].source,
            after.log[j].cell,
        ) by {
            if j < len {
                assert(after.log[j] == pass.log[j]);
            } else {
                assert(neighbor_at(run.width, run.height, src, k) == n);
            }
        }
        assert forall|i: int, j: int|
            0 <= i < j < after.log.len() && (#[trigger] after.log[i]).is_bleed() implies (
        #[trigger] after.log[j]).source != after.log[i].cell by {
            assert(after.log[i] == pass.log[i]);
            assert(pass.dirty[pass.log[i].cell]);
            if j < len {
                assert(after.log[j] == pass.log[j]);
            }
        }
    }
}

/// Offering ink to the first `count` neighbours keeps a pass sound.
proof fn lemma_bleed_all_sound(run: Run, pass: Pass, x: int, y: int, count: nat)
    requires
        run.well_formed(),
        0 <= x < run.width,
        0 <= y < run.height,
        count <= 8,
        sound(run, y * run.width + x, pass),
        !pass.dirty[y * run.width + x],
        spreads(run.initial[y * run.width + x], run.settings),
    ensures
        sound(
            run,
            y * run.width + x,
            bleed_all(
                pass,
                run.width,
                run.height,
                x,
                y,
                count,
                brightness(run.initial[y * run.width + x]),
                ink(run.initial[y * run.width + x], noise_at(run.noise, y * run.width + x)),
            ),
        ),
        !bleed_all(
            pass,
            run.width,
            run.height,
            x,
            y,
            count,
            brightness(run.initial[y * run.width + x]),
            ink(run.initial[y * run.width + x], noise_at(run.noise, y * run.width + x)),
        ).dirty[y * run.width + x],
    decreases count,
{
    if count > 0 {
        let src = y * run.width + x;
        let level = brightness(run.initial[src]);
        let color = ink(run.initial[src], noise_at(run.noise, src));
        lemma_bleed_all_sound(run, pass, x, y, (count - 1) as nat);
        let before = bleed_all(pass, run.width, run.height, x, y, (count - 1) as nat, level, color);
        lemma_bleed_sound(run, before, x, y, count - 1);
    }
}

/// The visit of the next cell in raster order keeps a pass sound.
proof fn lemma_visit_sound(run: Run, pass: Pass, x: int, y: int)
    requires
        run.well_formed(),
        0 <= x < run.width,
        0 <= y < run.height,
        sound(run, y * run.width + x, pass),
    ensures
        sound(
            run,
            y * run.width + x + 1,
            visit(
                pass,
                run.width,
                run.height,
                x,
                y,
                noise_at(run.noise, y * run.width + x),
                run.settings,
            ),
        ),
{
    let src = y * run.width + x;
    let noise = noise_at(run.noise, src);
    let after = visit(pass, run.width, run.height, x, y, noise, run.settings);
    lemma_row_major(x, y, run.width, run.height);
    if !pass.dirty[src] {
        let p = pass.cells[src];
        assert(p == run.initial[src]);
        let spread = if spreads(p, run.settings) {
            bleed_all(pass, run.width, run.height, x, y, 8, brightness(p), ink(p, noise))
        } else {
            pass
        };
        if spreads(p, run.settings) {
            lemma_bleed_all_sound(run, pass, x, y, 8);
        }
        assert(sound(run, src, spread));
        assert(!spread.dirty[src]);
        let len = spread.log.len() as int;
        assert(after.log.len() == len + 1);
        assert(!after.log[len].is_bleed());
        assert forall|j: int| 0 <= j < len implies after.log[j] == spread.log[j] by {}
        assert forall|c: int|
            0 <= c < run.width * run.height && #[trigger] after.dirty[c] implies exists|j: int|
            bled_at(after.log, c, j) by {
            let j = choose|j: int| bled_at(spread.log, c, j);
            assert(bled_at(after.log, c, j));
        }
        assert forall|i: int, j: int|
            0 <= i < j < after.log.len() && (#[trigger] after.log[i]).cell == (
            #[trigger] after.log[j]).cell implies !after.log[i].is_bleed() by {
            assert(after.log[i] == spread.log[i]);
            if j == len {
                if spread.log[i].is_bleed() {
                    assert(spread.dirty[spread.log[i].cell]);
                }
            } else {
                assert(after.log[j] == spread.log[j]);
            }
        }
        assert forall|j: int|
            0 <= j < after.log.len() && (#[trigger] after.log[j]).is_bleed() implies {
            &&& after.dirty[after.log[j].cell]
            &&& after.cells[after.log[j].cell] == after.log[j].after
            &&& after.log[j].after == ink(
                run.initial[after.log[j].source],
                noise_at(run.noise, after.log[j].source),
            )
        } by {
            assert(j < len);
            assert(after.log[j] == spread.log[j]);
            assert(spread.dirty[spread.log[j].cell]);
        }
        assert forall|j: int|
            0 <= j < after.log.len() && (#[trigger] after.log[j]).is_bleed() implies {
            &&& brightness(after.log[j].before) < brightness(run.initial[after.log[j].source])
            &&& spreads(run.initial[after.log[j].source], run.settings)
            &&& after.log[j].cell > after.log[j].source ==> after.log[j].before
                == run.initial[after.log[j].cell]
        } by {
            assert(after.log[j] == spread.log[j]);
        }
        assert forall|j: int| 0 <= j < after.log.len() implies 0 <= (#[trigger] after.log[j]).cell
            < run.width * run.height && 0 <= after.log[j].source < run.width * run.height by {
            if j < len {
                assert(after.log[j] == spread.log[j]);
            }
        }
        assert forall|j: int|
            0 <= j < after.log.len() && (#[trigger] after.log[j]).is_bleed() implies is_neighbor(
            run.width,
            run.height,
            after.log[j].source,
            after.log[j].cell,
        ) by {
            assert(after.log[j] == spread.log[j]);
        }
        assert forall|i: int, j: int|
            0 <= i < j < after.log.len() && (#[trigger] after.log[i]).is_bleed() implies (
        #[trigger] after.log[j]).source != after.log[i].cell by {
            assert(after.log[i] == spread.log[i]);
            assert(spread.dirty[spread.log[i].cell]);
            if j < len {
                assert(after.log[j] == spread.log[j]);
            }
        }
    }
}

/// A pass is sound after any number of visits.
proof fn lemma_pass_sound(run: Run, count: nat)
    requires
        run.well_formed(),
        count <= run.width * run.height,
    ensures
        sound(run, count as int, run.upto(count)),
    decreases count,
{
    if count == 0 || run.width <= 0 {
        assert(run.upto(count) == fresh_pass(run.initial));
        if run.width <= 0 {
            assert(run.width * run.height == 0) by (nonlinear_arith)
                requires
                    run.width == 0,
            ;
        }
    } else {
        let i = (count - 1) as int;
        let x = i % run.width;
        let y = i / run.width;
        lemma_pass_sound(run, i as nat);
        lemma_fundamental_div_mod(i, run.width);
        lemma_mod_pos_bound(i, run.width);
        lemma_div_pos_is_pos(i, run.width);
        assert(run.width * y == y * run.width) by (nonlinear_arith);
        assert(y < run.height) by (nonlinear_arith)
            requires
                y * run.width + x == i,
                0 <= x,
                i < run.width * run.height,
                0 < run.width,
        ;
        lemma_visit_sound(run, run.upto(i as nat), x, y);
    }
}

/// Whether every entry of `a` stands at the same place in `b`.
spec fn extends(a: Seq<Write>, b: Seq<Write>) -> bool {
    &&& a.len() <= b.len()
    &&& forall|j: int| 0 <= j < a.len() ==> #[trigger] b[j] == a[j]
}

/// Two different neighbours of a cell, both inside the grid, are different
/// cells.
proof fn lemma_neighbors_distinct(width: int, height: int, x: int, y: int, k: int, other: int)
    requires
        0 <= x < width,
        0 <= y < height,
        0 <= k < 8,
        0 <= other < 8,
        k != other,
        0 <= x + neighbor_offset(k).0 < width,
        0 <= y + neighbor_offset(k).1 < height,
        0 <= x + neighbor_offset(other).0 < width,
        0 <= y + neighbor_offset(other).1 < height,
    ensures
        (y + neighbor_offset(k).1) * width + (x + neighbor_offset(k).0) != (y + neighbor_offset(
            other,
        ).1) * width + (x + neighbor_offset(other).0),
{
    let nx = x + neighbor_offset(k).0;
    let ny = y + neighbor_offset(k).1;
    let ox = x + neighbor_offset(other).0;
    let oy = y + neighbor_offset(other).1;
    if ny * width + nx == oy * width + ox {
        lemma_fundamental_div_mod_converse(ny * width + nx, width, ny, nx);
        lemma_fundamental_div_mod_converse(oy * width + ox, width, oy, ox);
    }
}

/// Offering ink to neighbours only adds to the log.
proof fn lemma_bleed_all_extends(
    pass: Pass,
    width: int,
    height: int,
    x: int,
    y: int,
    count: nat,
    level: int,
    color: Pixel,
)
    ensures
        extends(pass.log, bleed_all(pass, width, height, x, y, count, level, color).log),
    decreases count,
{
    if count > 0 {
        lemma_bleed_all_extends(pass, width, height, x, y, (count - 1) as nat, level, color);
    }
}

/// A visit only adds to the log.
proof fn lemma_visit_extends(
    pass: Pass,
    width: int,
    height: int,
    x: int,
    y: int,
    noise: ColorVector,
    settings: Settings,
)
    ensures
        extends(pass.log, visit(pass, width, height, x, y, noise, settings).log),
{
    let p = pass.cells[y * width + x];
    lemma_bleed_all_extends(pass, width, height, x, y, 8, brightness(p), ink(p, noise));
}

/// Later visits only add to the log.
proof fn lemma_log_grows(run: Run, count: nat, later: nat)
    requires
        count <= later,
    ensures
        extends(run.upto(count).log, run.upto(later).log),
    decreases later,
{
    if count < later {
        let i = (later - 1) as int;
        lemma_log_grows(run, count, i as nat);
        if run.width > 0 {
            lemma_visit_extends(
                run.upto(i as nat),
                run.width,
                run.height,
                i % run.width,
                i / run.width,
                noise_at(run.noise, i),
                run.settings,
            );
        }
    }
}

/// When a source has offered its ink to the first `count` of its neighbours,
/// a neighbour not yet reached is as it was, and a neighbour that was reached
/// and was then neither dirty nor at least as bright as the source has a write
/// from the source in the log.
proof fn lemma_bleed_all_reaches(
    pass: Pass,
    width: int,
    height: int,
    x: int,
    y: int,
    count: nat,
    level: int,
    color: Pixel,
    k: int,
)
    requires
        0 <= x < width,
        0 <= y < height,
        0 <= k < 8,
        count <= 8,
        0 <= x + neighbor_offset(k).0 < width,
        0 <= y + neighbor_offset(k).1 < height,
        pass.cells.len() == width * height,
        pass.dirty.len() == width * height,
    ensures
        ({
            let reached = bleed_all(pass, width, height, x, y, count, level, color);
            let n = (y + neighbor_offset(k).1) * width + (x + neighbor_offset(k).0);
            &&& reached.cells.len() == width * height
            &&& reached.dirty.len() == width * height
            &&& extends(pass.log, reached.log)
            &&& k >= count ==> reached.dirty[n] == pass.dirty[n] && reached.cells[n]
                == pass.cells[n]
            &&& k < count && !pass.dirty[n] && brightness(pass.cells[n]) < level ==> exists|j: int|
                pass.log.len() <= j < reached.log.len() && (#[trigger] reached.log[j]).cell == n
                    && reached.log[j].source == y * width + x
        }),
    decreases count,
{
    let n = (y + neighbor_offset(k).1) * width + (x + neighbor_offset(k).0);
    lemma_neighbor_index(width, height, x, y, k);
    if count > 0 {
        let step = count - 1;
        let before = bleed_all(pass, width, height, x, y, step as nat, level, color);
        let reached = bleed_all(pass, width, height, x, y, count, level, color);
        lemma_bleed_all_reaches(pass, width, height, x, y, step as nat, level, color, k);
        let ox = x + neighbor_offset(step).0;
        let oy = y + neighbor_offset(step).1;
        let o = oy * width + ox;
        if 0 <= ox < width && 0 <= oy < height {
            lemma_neighbor_index(width, height, x, y, step);
            if step != k {
                lemma_neighbors_distinct(width, height, x, y, k, step);
            }
        }
        if k < count && !pass.dirty[n] && brightness(pass.cells[n]) < level {
            if k == step {
                let j = before.log.len() as int;
                assert(reached.log[j].cell == n && reached.log[j].source == y * width + x);
            } else {
                let j = choose|j: int|
                    pass.log.len() <= j < before.log.len() && (#[trigger] before.log[j]).cell == n
                        && before.log[j].source == y * width + x;
                assert(reached.log[j] == before.log[j]);
            }
        }
    }
}

/// Whether the cells fill a grid of the given dimensions.
pub open spec fn is_grid(cells: Seq<Pixel>, width: int, height: int) -> bool {
    0 <= width && 0 <= height && cells.len() == width * height
}

/// During a pass no cell is written again once a neighbour has bled onto it:
/// no second neighbour bleeds onto it, and it does not fade on a visit of its
/// own. The cells bled onto are exactly those that end the pass dirty, so each
/// dirty cell was bled onto exactly once.
pub proof fn lemma_bled_onto_once(
    initial: Seq<Pixel>,
    width: int,
    height: int,
    noise: Seq<ColorVector>,
    settings: Settings,
    pass: Pass,
)
    requires
        is_grid(initial, width, height),
        pass == full_pass(initial, width, height, noise, settings),
    ensures
        forall|i: int, j: int|
            0 <= i < j < pass.log.len() && (#[trigger] pass.log[i]).cell == (
            #[trigger] pass.log[j]).cell ==> !pass.log[i].is_bleed(),
        forall|c: int|
            0 <= c < width * height ==> (#[trigger] pass.dirty[c] <==> exists|j: int|
                bled_at(pass.log, c, j)),
        forall|c: int, i: int, j: int|
            #[trigger] bled_at(pass.log, c, i) && #[trigger] bled_at(pass.log, c, j) ==> i == j,
{
    let run = Run { initial, width, height, noise, settings };
    lemma_pass_sound(run, (width * height) as nat);
    assert forall|c: int| 0 <= c < width * height implies (#[trigger] pass.dirty[c] <==> exists|
        j: int,
    | bled_at(pass.log, c, j)) by {
        if exists|j: int| bled_at(pass.log, c, j) {
            let j = choose|j: int| bled_at(pass.log, c, j);
            assert(pass.log[j].is_bleed());
        }
    }
    assert forall|c: int, i: int, j: int| #[trigger]
        bled_at(pass.log, c, i) && #[trigger] bled_at(pass.log, c, j) implies i == j by {
        if i < j {
            assert(pass.log[i].cell == pass.log[j].cell);
        }
        if j < i {
            assert(pass.log[j].cell == pass.log[i].cell);
        }
    }
}

/// A source bleeds only if it was bright enough when the pass began, and only
/// onto a cell whose brightness, when the ink arrives, is strictly below what
/// the source had when the pass began. A cell that comes after the source in
/// raster order is then still as it was when the pass began, so it was
/// strictly dimmer than the source from the start.
pub proof fn lemma_bleeds_onto_dimmer(
    initial: Seq<Pixel>,
    width: int,
    height: int,
    noise: Seq<ColorVector>,
    settings: Settings,
    pass: Pass,
)
    requires
        is_grid(initial, width, height),
        pass == full_pass(initial, width, height, noise, settings),
    ensures
        forall|j: int|
            0 <= j < pass.log.len() && (#[trigger] pass.log[j]).is_bleed() ==> {
                &&& 0 <= pass.log[j].cell < width * height
                &&& 0 <= pass.log[j].source < width * height
                &&& spreads(initial[pass.log[j].source], settings)
                &&& brightness(pass.log[j].before) < brightness(initial[pass.log[j].source])
                &&& pass.log[j].cell > pass.log[j].source ==> pass.log[j].before
                    == initial[pass.log[j].cell]
                &&& pass.log[j].cell > pass.log[j].source ==> brightness(
                    initial[pass.log[j].cell],
                ) < brightness(initial[pass.log[j].source])
            },
{
    let run = Run { initial, width, height, noise, settings };
    lemma_pass_sound(run, (width * height) as nat);
}

/// A neighbour bleeds only onto one of its eight neighbours inside the grid,
/// and a cell that was bled onto is never a source afterwards: no later write
/// of the pass comes from it.
pub proof fn lemma_bleeds_from_neighbors(
    initial: Seq<Pixel>,
    width: int,
    height: int,
    noise: Seq<ColorVector>,
    settings: Settings,
    pass: Pass,
)
    requires
        is_grid(initial, width, height),
        pass == full_pass(initial, width, height, noise, settings),
    ensures
        forall|j: int|
            0 <= j < pass.log.len() && (#[trigger] pass.log[j]).is_bleed() ==> is_neighbor(
                width,
                height,
                pass.log[j].source,
                pass.log[j].cell,
            ),
        forall|i: int, j: int|
            0 <= i < j < pass.log.len() && (#[trigger] pass.log[i]).is_bleed() ==> (
            #[trigger] pass.log[j]).source != pass.log[i].cell,
{
    let run = Run { initial, width, height, noise, settings };
    lemma_pass_sound(run, (width * height) as nat);
}

/// What the cells hold when the first `count` of them have been visited. A
/// cell that is not dirty by then is as it was when the pass began if its
/// visit is still to come, and holds its own residue if it has been visited.
pub proof fn lemma_midway(
    initial: Seq<Pixel>,
    width: int,
    height: int,
    noise: Seq<ColorVector>,
    settings: Settings,
    count: nat,
    pass: Pass,
    c: int,
)
    requires
        is_grid(initial, width, height),
        count <= width * height,
        pass == pass_upto(initial, width, height, noise, settings, count),
        0 <= c < width * height,
    ensures
        pass.cells.len() == width * height,
        pass.dirty.len() == width * height,
        !pass.dirty[c] && c >= count ==> pass.cells[c] == initial[c],
        !pass.dirty[c] && c < count ==> pass.cells[c] == residue(
            initial[c],
            noise_at(noise, c),
            settings,
        ),
{
    let run = Run { initial, width, height, noise, settings };
    lemma_pass_sound(run, count);
}

/// Every eligible neighbour is written. Where a cell comes to its visit not
/// dirty and bright enough to bleed, each of its eight neighbours inside the
/// grid that is then neither dirty nor at least as bright as the cell was when
/// the pass began takes the cell's ink, and ends the pass dirty and holding
/// it.
pub proof fn lemma_eligible_neighbor_is_inked(
    initial: Seq<Pixel>,
    width: int,
    height: int,
    noise: Seq<ColorVector>,
    settings: Settings,
    source: int,
    k: int,
    before: Pass,
    pass: Pass,
)
    requires
        is_grid(initial, width, height),
        0 <= source < width * height,
        0 <= k < 8,
        before == pass_upto(initial, width, height, noise, settings, source as nat),
        pass == full_pass(initial, width, height, noise, settings),
        neighbor_at(width, height, source, k) >= 0,
        !before.dirty[source],
        spreads(initial[source], settings),
        !before.dirty[neighbor_at(width, height, source, k)],
        brightness(before.cells[neighbor_at(width, height, source, k)]) < brightness(
            initial[source],
        ),
    ensures
        ({
            let n = neighbor_at(width, height, source, k);
            &&& 0 <= n < width * height
            &&& pass.dirty[n]
            &&& pass.cells[n] == ink(initial[source], noise_at(noise, source))
            &&& exists|j: int| #[trigger] bled_at(pass.log, n, j) && pass.log[j].source == source
        }),
{
    let run = Run { initial, width, height, noise, settings };
    let n = neighbor_at(width, height, source, k);
    assert(width > 0) by (nonlinear_arith)
        requires
            0 <= source < width * height,
            0 <= width,
            0 <= height,
    ;
    let x = source % width;
    let y = source / width;
    lemma_fundamental_div_mod(source, width);
    lemma_mod_pos_bound(source, width);
    lemma_div_pos_is_pos(source, width);
    assert(width * y == y * width) by (nonlinear_arith);
    assert(y < height) by (nonlinear_arith)
        requires
            y * width + x == source,
            0 <= x,
            source < width * height,
            0 < width,
    ;
    lemma_neighbor_index(width, height, x, y, k);
    lemma_pass_sound(run, source as nat);
    lemma_pass_sound(run, (width * height) as nat);
    let p = before.cells[source];
    assert(p == initial[source]);
    let level = brightness(p);
    let color = ink(p, noise_at(noise, source));
    let spread = bleed_all(before, width, height, x, y, 8, level, color);
    lemma_bleed_all_reaches(before, width, height, x, y, 8, level, color, k);
    let j = choose|j: int|
        before.log.len() <= j < spread.log.len() && (#[trigger] spread.log[j]).cell == n
            && spread.log[j].source == source;
    let visited = run.upto((source + 1) as nat);
    assert(visited == visit(before, width, height, x, y, noise_at(noise, source), settings));
    assert(visited.log[j] == spread.log[j]);
    lemma_log_grows(run, (source + 1) as nat, (width * height) as nat);
    assert(pass.log[j] == visited.log[j]);
    assert(pass.log[j].is_bleed());
    assert(bled_at(pass.log, n, j));
}

/// What every cell holds after a pass. A cell that did not end the pass dirty
/// holds the residue of what it held when the pass began. A dirty cell holds
/// the ink of the one neighbour that bled onto it: that neighbour's colour at
/// the start of the pass less its noise.
pub proof fn lemma_outcome(
    initial: Seq<Pixel>,
    width: int,
    height: int,
    noise: Seq<ColorVector>,
    settings: Settings,
    pass: Pass,
    c: int,
)
    requires
        is_grid(initial, width, height),
        pass == full_pass(initial, width, height, noise, settings),
        0 <= c < width * height,
    ensures
        pass.cells.len() == width * height,
        pass.dirty.len() == width * height,
        !pass.dirty[c] ==> pass.cells[c] == residue(initial[c], noise_at(noise, c), settings),
        pass.dirty[c] ==> exists|j: int|
            {
                &&& #[trigger] bled_at(pass.log, c, j)
                &&& 0 <= pass.log[j].source < width * height
                &&& pass.cells[c] == ink(
                    initial[pass.log[j].source],
                    noise_at(noise, pass.log[j].source),
                )
            },
{
    let run = Run { initial, width, height, noise, settings };
    lemma_pass_sound(run, (width * height) as nat);
    if pass.dirty[c] {
        let j = choose|j: int| bled_at(pass.log, c, j);
        assert(pass.log[j].is_bleed());
    }
}

/// A cell that only decays in a pass loses brightness in every colour
/// channel, or keeps it: where a cell was too dim to bleed when the pass began
/// and no neighbour bled onto it, and the darkening keeps at most the whole,
/// none of its colour channels is higher after the pass than before. Its
/// alpha is then at the full 255, whatever it was.
pub proof fn lemma_decay_darkens(
    initial: Seq<Pixel>,
    width: int,
    height: int,
    noise: Seq<ColorVector>,
    settings: Settings,
    c: int,
)
    requires
        is_grid(initial, width, height),
        0 <= c < width * height,
        settings.darken_permille <= 1000,
        !spreads(initial[c], settings),
        !full_pass(initial, width, height, noise, settings).dirty[c],
    ensures
        ({
            let after = full_pass(initial, width, height, noise, settings).cells[c];
            &&& after == pixel_of(vector_of(initial[c]).scaled(settings.darken_permille))
            &&& after.a == 255
            &&& after.r <= initial[c].r
            &&& after.g <= initial[c].g
            &&& after.b <= initial[c].b
        }),
{
    lemma_outcome(
        initial,
        width,
        height,
        noise,
        settings,
        full_pass(initial, width, height, noise, settings),
        c,
    );
    lemma_scaling_darkens(initial[c], settings.darken_permille);
}

} // verus!
