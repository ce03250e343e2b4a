//! A plain grid position with checked movement.
use vstd::prelude::*;

verus! {

/// A position on a grid, in cells.
#[derive(Clone, Copy, Debug, PartialEq, Eq, Structural)]
pub struct GridPosVec {
    x: usize,
    y: usize,
}

impl GridPosVec {
    pub closed spec fn spec_x(&self) -> usize {
        self.x
    }

    pub closed spec fn spec_y(&self) -> usize {
        self.y
    }

    pub fn new(x: usize, y: usize) -> (r: GridPosVec)
        ensures
            r.spec_x() == x,
            r.spec_y() == y,
    {
        Self { x, y }
    }

    pub fn x(&self) -> (r: usize)
        ensures
            r == self.spec_x(),
    {
        self.x
    }

    pub fn y(&self) -> (r: usize)
        ensures
            r == self.spec_y(),
    {
        self.y
    }

    pub fn add_x(&mut self, n: usize)
        requires
            old(self).spec_x() + n <= usize::MAX,
        ensures
            final(self).spec_x() == old(self).spec_x() + n,
            final(self).spec_y() == old(self).spec_y(),
    {
        self.x += n;
    }

    /// Moves left by `n`, unless that would leave the grid; then nothing moves.
    pub fn subtract_x(&mut self, n: usize)
        ensures
            final(self).spec_x() == if n <= old(self).spec_x() {
                (old(self).spec_x() - n) as usize
            } else {
                old(self).spec_x()
            },
            final(self).spec_y() == old(self).spec_y(),
    {
        if n <= self.x {
            self.x -= n;
        }
    }

    pub fn add_y(&mut self, n: usize)
        requires
            old(self).spec_y() + n <= usize::MAX,
        ensures
            final(self).spec_y() == old(self).spec_y() + n,
            final(self).spec_x() == old(self).spec_x(),
    {
        self.y += n;
    }

    /// Moves down by `n`, unless that would leave the grid; then nothing moves.
    pub fn subtract_y(&mut self, n: usize)
        ensures
            final(self).spec_y() == if n <= old(self).spec_y() {
                (old(self).spec_y() - n) as usize
            } else {
                old(self).spec_y()
            },
            final(self).spec_x() == old(self).spec_x(),
    {
        if n <= self.y {
            self.y -= n;
        }
    }

    /// Row-major index of this position in a grid of the given size.
    pub fn index(&self, size: &GridPosVec) -> (r: usize)
        requires
            self.spec_y() * size.spec_x() + self.spec_x() <= usize::MAX,
        ensures
            r == self.spec_y() * size.spec_x() + self.spec_x(),
    {
        proof {
            assert(0 <= self.y * size.x) by (nonlinear_arith);
        }
        self.y() * size.x() + self.x()
    }

    /// The position of row-major index `index` in a grid of the given size.
    pub fn from_index(index: usize, size: &GridPosVec) -> (r: Self)
        requires
            size.spec_x() > 0,
        ensures
            r.spec_x() == index % size.spec_x(),
            r.spec_y() == index / size.spec_x(),
    {
        Self::new(index % size.x(), index / size.x())
    }

    /// This position moved by `(x, y)`; a step that would leave the grid on
    /// the low side leaves that coordinate unchanged.
    pub fn offset(&self, x: i32, y: i32) -> (r: Self)
        requires
            x >= 0 ==> self.spec_x() + x <= usize::MAX,
            y >= 0 ==> self.spec_y() + y <= usize::MAX,
        ensures
            r.spec_x() == if x >= 0 {
                (self.spec_x() + x) as usize
            } else if -x <= self.spec_x() {
                (self.spec_x() + x) as usize
            } else {
                self.spec_x()
            },
            r.spec_y() == if y >= 0 {
                (self.spec_y() + y) as usize
            } else if -y <= self.spec_y() {
                (self.spec_y() + y) as usize
            } else {
                self.spec_y()
            },
    {
        let mut new_pos = *self;
        if x >= 0 {
            new_pos.add_x(x as usize);
        } else {
            new_pos.subtract_x((-(x as i64)) as usize);
        }
        if y >= 0 {
            new_pos.add_y(y as usize);
        } else {
            new_pos.subtract_y((-(y as i64)) as usize);
        }
        new_pos
    }

    /// This position lies inside a grid of size `bounds`.
    pub fn in_bounds(&self, bounds: &GridPosVec) -> (r: bool)
        ensures
            r == (self.spec_x() < bounds.spec_x() && self.spec_y() < bounds.spec_y()),
    {
        self.x() < bounds.x() && self.y() < bounds.y()
    }
}

} // verus!
