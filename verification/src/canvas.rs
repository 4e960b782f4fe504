use vstd::prelude::*;
use crate::fixed::clamp;
use crate::pixel::Pixel;
use crate::point::Point;
use crate::raster::Raster;
use crate::raster::raster_cells;
use crate::raster::raster_width;
use crate::raster::raster_height;
use crate::raster::raster_new;
use crate::raster::raster_get_width;
use crate::raster::raster_get_height;
use crate::raster::raster_get;
use crate::raster::raster_put;

verus! {

/// A fixed-size grid of pixels, row-major: the cell at `(x, y)` has index
/// `y * width + x`.
pub struct Canvas {
    raster: Raster,
}

/// Whether a grid of these dimensions can be held in memory, four bytes to a
/// cell.
pub open spec fn fits(width: u32, height: u32) -> bool {
    4 * width * height <= isize::MAX
}

/// A row-major index of a cell inside the grid lies inside the cell sequence.
pub proof fn lemma_row_major(x: int, y: int, width: int, height: int)
    requires
        0 <= x < width,
        0 <= y < height,
    ensures
        0 <= y * width + x < width * height,
{
    assert(0 <= y * width && y * width + width <= height * width) by (nonlinear_arith)
        requires
            0 <= y < height,
            0 <= width,
    ;
    assert(height * width == width * height) by (nonlinear_arith);
}

/// The whole number of world units nearest to a coordinate, halves rounded
/// away from zero.
pub open spec fn round_units(c: int) -> int {
    if c >= 0 {
        (c + 500_000) / 1_000_000
    } else {
        -((-c + 500_000) / 1_000_000)
    }
}

/// The column of a grid `width` cells wide that a world `x` coordinate falls
/// in: the coordinate in whole units counted from the middle column, held to
/// the grid.
pub open spec fn grid_x(x: int, width: int) -> int {
    clamp(round_units(x) + width / 2, 0, width - 1)
}

/// The row of a grid `height` cells high that a world `y` coordinate falls
/// in: the coordinate in whole units counted upward from the middle row, held
/// to the grid. Rows count downward, so a higher `y` is a lower row number.
pub open spec fn grid_y(y: int, height: int) -> int {
    clamp(height / 2 - round_units(y), 0, height - 1)
}

/// The cells after `color` has replaced the cell that the world point `at`
/// falls in. A grid without cells stays as it is.
pub open spec fn deposited(
    cells: Seq<Pixel>,
    width: int,
    height: int,
    at: Point,
    color: Pixel,
) -> Seq<Pixel> {
    if width <= 0 || height <= 0 {
        cells
    } else {
        cells.update(grid_y(at.y as int, height) * width + grid_x(at.x as int, width), color)
    }
}

/// The whole number of world units nearest to a coordinate.
fn nearest_unit(c: i32) -> (u: i64)
    ensures
        u == round_units(c as int),
        -2148 <= u <= 2148,
{
    if c >= 0 {
        (c as i64 + 500_000) / 1_000_000
    } else {
        -((-(c as i64) + 500_000) / 1_000_000)
    }
}

/// A cell number held to a side of `side` cells.
fn hold(c: i64, side: u32) -> (held: u32)
    requires
        side > 0,
    ensures
        held == clamp(c as int, 0, side - 1),
        held < side,
{
    if c < 0 {
        0
    } else if c > side as i64 - 1 {
        side - 1
    } else {
        c as u32
    }
}

impl Canvas {
    #[verifier::type_invariant]
    spec fn inv(self) -> bool {
        &&& raster_cells(self.raster).len() == raster_width(self.raster) * raster_height(
            self.raster,
        )
        &&& raster_width(self.raster) <= u32::MAX
        &&& raster_height(self.raster) <= u32::MAX
        &&& 4 * raster_width(self.raster) * raster_height(self.raster) <= isize::MAX
    }

    /// Number of columns.
    pub closed spec fn spec_width(self) -> nat {
        raster_width(self.raster)
    }

    /// Number of rows.
    pub closed spec fn spec_height(self) -> nat {
        raster_height(self.raster)
    }

    /// The cells in row-major order.
    pub closed spec fn view(self) -> Seq<Pixel> {
        raster_cells(self.raster)
    }

    /// Row-major index of the cell at `(x, y)`.
    pub open spec fn index_of(self, x: int, y: int) -> int {
        y * self.spec_width() + x
    }

    /// Whether `(x, y)` addresses a cell.
    pub open spec fn in_bounds(self, x: int, y: int) -> bool {
        0 <= x < self.spec_width() && 0 <= y < self.spec_height()
    }

    /// A canvas of the given dimensions with every channel of every cell zero,
    /// or `None` where it would not fit in memory.
    pub fn new(width: u32, height: u32) -> (made: Option<Canvas>)
        ensures
            made.is_some() <==> fits(width, height),
            made matches Some(c) ==> {
                &&& c.spec_width() == width
                &&& c.spec_height() == height
                &&& c@ == Seq::new((width * height) as nat, |i: int| Pixel { r: 0, g: 0, b: 0, a: 0 })
            },
    {
        let w: u128 = width as u128;
        let h: u128 = height as u128;
        assert(w * h <= 0xffff_ffff * 0xffff_ffff) by (nonlinear_arith)
            requires
                w <= 0xffff_ffff,
                h <= 0xffff_ffff,
        ;
        assert(4 * width * height == 4 * (w * h)) by (nonlinear_arith)
            requires
                w == width,
                h == height,
        ;
        let bytes: u128 = 4 * (w * h);
        if bytes > isize::MAX as u128 {
            return None;
        }
        let raster = raster_new(width, height);
        let c = Canvas { raster };
        assert(c@ =~= Seq::new((width * height) as nat, |i: int| Pixel { r: 0, g: 0, b: 0, a: 0 }));
        Some(c)
    }

    /// Number of columns.
    pub fn width(&self) -> (w: u32)
        ensures
            w == self.spec_width(),
            self@.len() == self.spec_width() * self.spec_height(),
            self.spec_height() <= u32::MAX,
            4 * self.spec_width() * self.spec_height() <= isize::MAX,
    {
        proof {
            use_type_invariant(self);
        }
        raster_get_width(&self.raster)
    }

    /// Number of rows.
    pub fn height(&self) -> (h: u32)
        ensures
            h == self.spec_height(),
            self@.len() == self.spec_width() * self.spec_height(),
            self.spec_width() <= u32::MAX,
            4 * self.spec_width() * self.spec_height() <= isize::MAX,
    {
        proof {
            use_type_invariant(self);
        }
        raster_get_height(&self.raster)
    }

    /// The pixel at `(x, y)`.
    pub fn get(&self, x: u32, y: u32) -> (p: Pixel)
        requires
            self.in_bounds(x as int, y as int),
        ensures
            p == self@[self.index_of(x as int, y as int)],
    {
        proof {
            use_type_invariant(self);
        }
        raster_get(&self.raster, x, y)
    }

    /// Overwrites the pixel at `(x, y)`.
    pub fn put(&mut self, x: u32, y: u32, p: Pixel)
        requires
            old(self).in_bounds(x as int, y as int),
        ensures
            final(self).spec_width() == old(self).spec_width(),
            final(self).spec_height() == old(self).spec_height(),
            final(self)@ == old(self)@.update(old(self).index_of(x as int, y as int), p),
    {
        proof {
            use_type_invariant(&*self);
            lemma_row_major(x as int, y as int, self.spec_width() as int, self.spec_height() as int);
        }
        raster_put(&mut self.raster, x, y, p);
    }

    /// The cells as bytes, four to a cell in the order red, green, blue,
    /// alpha, the cells in row-major order.
    pub fn to_rgba(&self) -> (bytes: Vec<u8>)
        ensures
            bytes@.len() == 4 * self@.len(),
            forall|i: int|
                0 <= i < self@.len() ==> {
                    &&& bytes@[4 * i] == (#[trigger] self@[i]).r
                    &&& bytes@[4 * i + 1] == self@[i].g
                    &&& bytes@[4 * i + 2] == self@[i].b
                    &&& bytes@[4 * i + 3] == self@[i].a
                },
    {
        let width: u32 = self.width();
        let height: u32 = self.height();
        let mut bytes: Vec<u8> = Vec::new();
        let mut y: u32 = 0;
        while y < height
            invariant
                y <= height,
                self.spec_width() == width,
                self.spec_height() == height,
                self@.len() == width * height,
                bytes@.len() == 4 * (y * width),
                forall|i: int|
                    0 <= i < y * width ==> {
                        &&& bytes@[4 * i] == (#[trigger] self@[i]).r
                        &&& bytes@[4 * i + 1] == self@[i].g
                        &&& bytes@[4 * i + 2] == self@[i].b
                        &&& bytes@[4 * i + 3] == self@[i].a
                    },
            decreases height - y,
        {
            let mut x: u32 = 0;
            while x < width
                invariant
                    x <= width,
                    y < height,
                    self.spec_width() == width,
                    self.spec_height() == height,
                    self@.len() == width * height,
                    bytes@.len() == 4 * (y * width + x),
                    forall|i: int|
                        0 <= i < y * width + x ==> {
                            &&& bytes@[4 * i] == (#[trigger] self@[i]).r
                            &&& bytes@[4 * i + 1] == self@[i].g
                            &&& bytes@[4 * i + 2] == self@[i].b
                            &&& bytes@[4 * i + 3] == self@[i].a
                        },
                decreases width - x,
            {
                let p: Pixel = self.get(x, y);
                bytes.push(p.r);
                bytes.push(p.g);
                bytes.push(p.b);
                bytes.push(p.a);
                x = x + 1;
            }
            assert(y * width + width == (y + 1) * width) by (nonlinear_arith);
            y = y + 1;
        }
        assert(height * width == width * height) by (nonlinear_arith);
        bytes
    }

    /// Overwrites the cell that the world point `at` falls in with `color`:
    /// the point is rounded to whole units, counted from the middle of the
    /// canvas with the `y` axis flipped, and held to the grid. A canvas
    /// without cells stays as it is.
    pub fn deposit(&mut self, at: Point, color: Pixel)
        ensures
            final(self).spec_width() == old(self).spec_width(),
            final(self).spec_height() == old(self).spec_height(),
            final(self)@ == deposited(
                old(self)@,
                old(self).spec_width() as int,
                old(self).spec_height() as int,
                at,
                color,
            ),
    {
        let width: u32 = self.width();
        let height: u32 = self.height();
        if width == 0 || height == 0 {
            return ;
        }
        let x: u32 = hold(nearest_unit(at.x) + (width / 2) as i64, width);
        let y: u32 = hold((height / 2) as i64 - nearest_unit(at.y), height);
        self.put(x, y, color);
    }
}

} // verus!
