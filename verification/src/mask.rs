use vstd::prelude::*;
use crate::canvas::lemma_row_major;

verus! {

/// One flag for each cell of a grid, row-major like the canvas: the cells that
/// were written as somebody's neighbour during the pass under way.
pub struct DirtyMask {
    width: u32,
    height: u32,
    flags: Vec<bool>,
}

impl DirtyMask {
    #[verifier::type_invariant]
    spec fn inv(self) -> bool {
        &&& self.flags@.len() == self.width * self.height
        &&& self.width * self.height <= usize::MAX
    }

    /// Number of columns.
    pub closed spec fn spec_width(self) -> nat {
        self.width as nat
    }

    /// Number of rows.
    pub closed spec fn spec_height(self) -> nat {
        self.height as nat
    }

    /// The flags in row-major order.
    pub closed spec fn view(self) -> Seq<bool> {
        self.flags@
    }

    /// Whether `(x, y)` addresses a flag.
    pub open spec fn in_bounds(self, x: int, y: int) -> bool {
        0 <= x < self.spec_width() && 0 <= y < self.spec_height()
    }

    /// A mask of the given dimensions with no flag set, or `None` where the
    /// number of cells is beyond what can be addressed.
    pub fn new(width: u32, height: u32) -> (made: Option<DirtyMask>)
        ensures
            made.is_some() <==> width * height <= usize::MAX,
            made matches Some(m) ==> {
                &&& m.spec_width() == width
                &&& m.spec_height() == height
                &&& m@ == Seq::new((width * height) as nat, |i: int| false)
            },
    {
        let w: u64 = width as u64;
        let h: u64 = height as u64;
        assert(w * h <= 0xffff_ffff * 0xffff_ffff) by (nonlinear_arith)
            requires
                w <= 0xffff_ffff,
                h <= 0xffff_ffff,
        ;
        let cells: u64 = w * h;
        if cells > usize::MAX as u64 {
            return None;
        }
        let flags: Vec<bool> = vec![false; cells as usize];
        assert(flags@ =~= Seq::new((width * height) as nat, |i: int| false));
        Some(DirtyMask { width, height, flags })
    }

    /// Whether the flag at `(x, y)` is set.
    pub fn is_dirty(&self, x: u32, y: u32) -> (dirty: bool)
        requires
            self.in_bounds(x as int, y as int),
        ensures
            dirty == self@[y * self.spec_width() + x],
            self@.len() == self.spec_width() * self.spec_height(),
    {
        proof {
            use_type_invariant(self);
            lemma_row_major(x as int, y as int, self.width as int, self.height as int);
            assert(0 <= y * self.width <= y * self.width + x < self.flags@.len()) by (nonlinear_arith)
                requires
                    0 <= y * self.width + x < self.width * self.height,
                    self.flags@.len() == self.width * self.height,
                    0 <= x,
                    0 <= y,
                    0 <= self.width,
            ;
        }
        let i: usize = (y as usize) * (self.width as usize) + (x as usize);
        self.flags[i]
    }

    /// Sets the flag at `(x, y)`.
    pub fn mark(&mut self, x: u32, y: u32)
        requires
            old(self).in_bounds(x as int, y as int),
        ensures
            final(self).spec_width() == old(self).spec_width(),
            final(self).spec_height() == old(self).spec_height(),
            final(self)@ == old(self)@.update(y * old(self).spec_width() + x, true),
            final(self)@.len() == old(self)@.len(),
    {
        proof {
            use_type_invariant(&*self);
            lemma_row_major(x as int, y as int, self.width as int, self.height as int);
            assert(0 <= y * self.width <= y * self.width + x < self.flags@.len()) by (nonlinear_arith)
                requires
                    0 <= y * self.width + x < self.width * self.height,
                    self.flags@.len() == self.width * self.height,
                    0 <= x,
                    0 <= y,
                    0 <= self.width,
            ;
        }
        let i: usize = (y as usize) * (self.width as usize) + (x as usize);
        self.flags[i] = true;
    }
}

} // verus!
