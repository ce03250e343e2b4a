//! A dense, fixed-size two-dimensional grid addressed by integer coordinates.
//!
//! Cells are stored row-major: the cell at `(x, y)` sits at index
//! `y * width + x`. Each stored item remembers its own coordinate.
use vstd::prelude::*;

verus! {

/// A grid coordinate (or a grid size): `x` grows to the right, `y` grows upward.
#[derive(Clone, Copy, Debug, PartialEq, Eq, Structural)]
pub struct UVec2 {
    pub x: u32,
    pub y: u32,
}

impl UVec2 {
    pub fn new(x: u32, y: u32) -> (r: UVec2)
        ensures
            r.x == x,
            r.y == y,
    {
        UVec2 { x, y }
    }
}

/// Number of cells of a grid of the given size.
pub open spec fn area(size: UVec2) -> nat {
    (size.x as nat) * (size.y as nat)
}

/// `p` lies inside a grid of the given size.
pub open spec fn in_bounds(p: UVec2, size: UVec2) -> bool {
    p.x < size.x && p.y < size.y
}

/// Row-major index of a coordinate.
pub open spec fn index_of(p: UVec2, width: u32) -> int {
    (p.y as int) * (width as int) + (p.x as int)
}

/// Coordinate of a row-major index.
pub open spec fn pos_of(i: int, width: u32) -> UVec2 {
    UVec2 { x: (i % (width as int)) as u32, y: (i / (width as int)) as u32 }
}

/// The coordinate `p + (dx, dy)`, when it lies inside a grid of the given size
/// whose first `len` cells are stored.
pub open spec fn offset_in(p: UVec2, dx: int, dy: int, size: UVec2, len: nat) -> Option<UVec2> {
    let x = p.x + dx;
    let y = p.y + dy;
    if 0 <= x < size.x && 0 <= y < size.y && y * size.x + x < len {
        Some(UVec2 { x: x as u32, y: y as u32 })
    } else {
        None
    }
}

/// The coordinate as a sequence of zero or one element.
pub open spec fn opt_seq(o: Option<UVec2>) -> Seq<UVec2> {
    match o {
        Some(q) => seq![q],
        None => Seq::empty(),
    }
}

/// Stored cardinal neighbours of `p`, in storage order: below, left, right, above.
pub open spec fn cardinal_neighbors(p: UVec2, size: UVec2, len: nat) -> Seq<UVec2> {
    opt_seq(offset_in(p, 0, -1, size, len)) + opt_seq(offset_in(p, -1, 0, size, len)) + opt_seq(
        offset_in(p, 1, 0, size, len),
    ) + opt_seq(offset_in(p, 0, 1, size, len))
}

/// Stored neighbours of `p` among the eight surrounding cells, in storage order.
pub open spec fn diagonal_neighbors(p: UVec2, size: UVec2, len: nat) -> Seq<UVec2> {
    opt_seq(offset_in(p, -1, -1, size, len)) + opt_seq(offset_in(p, 0, -1, size, len)) + opt_seq(
        offset_in(p, 1, -1, size, len),
    ) + opt_seq(offset_in(p, -1, 0, size, len)) + opt_seq(offset_in(p, 1, 0, size, len))
        + opt_seq(offset_in(p, -1, 1, size, len)) + opt_seq(offset_in(p, 0, 1, size, len))
        + opt_seq(offset_in(p, 1, 1, size, len))
}

/// The row-major index of an in-bounds coordinate maps back to that coordinate.
pub proof fn lemma_index_round_trip(p: UVec2, size: UVec2)
    requires
        in_bounds(p, size),
    ensures
        0 <= index_of(p, size.x) < area(size),
        pos_of(index_of(p, size.x), size.x) == p,
{
    let w = size.x as int;
    let i = index_of(p, size.x);
    vstd::arithmetic::div_mod::lemma_fundamental_div_mod_converse(i, w, p.y as int, p.x as int);
    assert(i < area(size)) by (nonlinear_arith)
        requires
            i == (p.y as int) * w + (p.x as int),
            p.x < w,
            p.y < size.y,
            area(size) == w * (size.y as int),
    ;
}

/// Every index below the area is the index of an in-bounds coordinate.
pub proof fn lemma_pos_of_in_bounds(i: int, size: UVec2)
    requires
        0 <= i < area(size),
    ensures
        in_bounds(pos_of(i, size.x), size),
        index_of(pos_of(i, size.x), size.x) == i,
{
    let w = size.x as int;
    assert(w > 0) by (nonlinear_arith)
        requires
            0 <= i < w * (size.y as int),
            w >= 0,
    ;
    vstd::arithmetic::div_mod::lemma_fundamental_div_mod(i, w);
    vstd::arithmetic::div_mod::lemma_div_pos_is_pos(i, w);
    assert(i / w < size.y) by (nonlinear_arith)
        requires
            i == w * (i / w) + i % w,
            0 <= i % w < w,
            i < w * (size.y as int),
            w > 0,
    ;
    assert((i / w) * w == w * (i / w)) by (nonlinear_arith);
}

/// One stored cell of a grid, with the coordinate it was stored at.
#[derive(Clone, Debug)]
pub struct GridItem<T> {
    pos: UVec2,
    contents: T,
}

impl<T> GridItem<T> {
    pub closed spec fn spec_pos(&self) -> UVec2 {
        self.pos
    }

    pub closed spec fn spec_contents(&self) -> T {
        self.contents
    }

    pub fn new(pos: UVec2, contents: T) -> (r: GridItem<T>)
        ensures
            r.spec_pos() == pos,
            r.spec_contents() == contents,
    {
        GridItem { pos, contents }
    }

    pub fn contents(&self) -> (r: &T)
        ensures
            *r == self.spec_contents(),
    {
        &self.contents
    }

    pub fn contents_mut(&mut self) -> (r: &mut T)
        ensures
            *r == old(self).spec_contents(),
            final(self).spec_pos() == old(self).spec_pos(),
            final(self).spec_contents() == *final(r),
    {
        &mut self.contents
    }

    pub fn pos(&self) -> (r: UVec2)
        ensures
            r == self.spec_pos(),
    {
        self.pos
    }
}

/// A fixed-size grid. Items are stored row-major; a grid may be built up by
/// pushing items in order, or populated at once with [`Grid::fill`].
#[derive(Clone, Debug)]
pub struct Grid<T> {
    size: UVec2,
    grid: Vec<GridItem<T>>,
}

impl<T> Grid<T> {
    pub closed spec fn spec_size(&self) -> UVec2 {
        self.size
    }

    /// The stored items, in storage order.
    pub closed spec fn items(&self) -> Seq<GridItem<T>> {
        self.grid@
    }

    /// The contents of the stored items, in storage order.
    pub open spec fn cells(&self) -> Seq<T> {
        self.items().map_values(|it: GridItem<T>| it.spec_contents())
    }

    /// The cell at `p` is inside the grid and stored.
    pub open spec fn stored_at(&self, p: UVec2) -> bool {
        in_bounds(p, self.spec_size()) && index_of(p, self.spec_size().x) < self.items().len()
    }

    /// Every cell of the grid is stored.
    pub open spec fn is_full(&self) -> bool {
        self.items().len() == area(self.spec_size())
    }

    /// The area fits in a `u32`, at most one item is stored per cell, and the
    /// item at index `i` carries the coordinate of index `i`.
    pub open spec fn wf(&self) -> bool {
        &&& area(self.spec_size()) <= u32::MAX
        &&& self.items().len() <= area(self.spec_size())
        &&& forall|i: int|
            0 <= i < self.items().len() ==> #[trigger] self.items()[i].spec_pos() == pos_of(
                i,
                self.spec_size().x,
            )
    }

    /// An empty grid of the given size; no cell is stored yet.
    pub fn new(size: UVec2) -> (r: Grid<T>)
        requires
            area(size) <= u32::MAX,
        ensures
            r.wf(),
            r.spec_size() == size,
            r.items().len() == 0,
    {
        let cap = size.x as u64 * size.y as u64;
        let grid = Vec::with_capacity(cap as usize);
        Grid { size, grid }
    }

    /// Appends the item for the next cell in storage order.
    pub fn push(&mut self, tile: GridItem<T>)
        requires
            old(self).wf(),
            old(self).items().len() < area(old(self).spec_size()),
            tile.spec_pos() == pos_of(old(self).items().len() as int, old(self).spec_size().x),
        ensures
            final(self).wf(),
            final(self).spec_size() == old(self).spec_size(),
            final(self).items() == old(self).items().push(tile),
    {
        self.grid.push(tile);
    }

    pub fn width(&self) -> (r: u32)
        ensures
            r == self.spec_size().x,
    {
        self.size.x
    }

    pub fn height(&self) -> (r: u32)
        ensures
            r == self.spec_size().y,
    {
        self.size.y
    }

    pub fn size(&self) -> (r: UVec2)
        ensures
            r == self.spec_size(),
    {
        self.size
    }

    /// The stored item at `pos`, or `None` when `pos` is outside the grid or
    /// not stored yet.
    pub fn tile(&self, pos: UVec2) -> (r: Option<&GridItem<T>>)
        requires
            self.wf(),
        ensures
            r is Some <==> in_bounds(pos, self.spec_size()) && index_of(pos, self.spec_size().x)
                < self.items().len(),
            r is Some ==> *r.unwrap() == self.items()[index_of(pos, self.spec_size().x)],
    {
        if pos.x < self.size.x && pos.y < self.size.y {
            proof {
                lemma_index_round_trip(pos, self.size);
            }
            let i = pos.y as usize * self.size.x as usize + pos.x as usize;
            if i < self.grid.len() {
                Some(&self.grid[i])
            } else {
                None
            }
        } else {
            None
        }
    }

    /// The stored item at `pos`, for mutation of its contents.
    pub fn tile_mut(&mut self, pos: UVec2) -> (r: Option<&mut GridItem<T>>)
        requires
            old(self).wf(),
        ensures
            r is Some <==> in_bounds(pos, old(self).spec_size()) && index_of(
                pos,
                old(self).spec_size().x,
            ) < old(self).items().len(),
            r is Some ==> *r.unwrap() == old(self).items()[index_of(pos, old(self).spec_size().x)],
            r is Some ==> final(self).items() == old(self).items().update(
                index_of(pos, old(self).spec_size().x),
                *final(r.unwrap()),
            ),
            r is None ==> *final(self) == *old(self),
            final(self).spec_size() == old(self).spec_size(),
    {
        if pos.x < self.size.x && pos.y < self.size.y {
            proof {
                lemma_index_round_trip(pos, self.size);
            }
            let i = pos.y as usize * self.size.x as usize + pos.x as usize;
            if i < self.grid.len() {
                Some(&mut self.grid[i])
            } else {
                None
            }
        } else {
            None
        }
    }

    /// `out` holds references to the stored items at the coordinates `ps`, in order.
    pub open spec fn refs_match(&self, out: Seq<&GridItem<T>>, ps: Seq<UVec2>) -> bool {
        &&& out.len() == ps.len()
        &&& forall|k: int|
            0 <= k < out.len() ==> *#[trigger] out[k] == self.items()[index_of(
                ps[k],
                self.spec_size().x,
            )]
    }

    /// Appends the stored item at `pos + (dx, dy)`, if there is one.
    fn push_neighbor<'a>(
        &'a self,
        out: &mut Vec<&'a GridItem<T>>,
        pos: UVec2,
        dx: i64,
        dy: i64,
        Ghost(ps): Ghost<Seq<UVec2>>,
    )
        requires
            self.wf(),
            -1 <= dx <= 1,
            -1 <= dy <= 1,
            self.refs_match(old(out)@, ps),
        ensures
            self.refs_match(
                final(out)@,
                ps + opt_seq(
                    offset_in(pos, dx as int, dy as int, self.spec_size(), self.items().len()),
                ),
            ),
    {
        let x = pos.x as i64 + dx;
        let y = pos.y as i64 + dy;
        let ghost o = offset_in(pos, dx as int, dy as int, self.spec_size(), self.items().len());
        if 0 <= x && x < self.size.x as i64 && 0 <= y && y < self.size.y as i64 {
            let q = UVec2 { x: x as u32, y: y as u32 };
            proof {
                lemma_index_round_trip(q, self.size);
            }
            let i = q.y as usize * self.size.x as usize + q.x as usize;
            if i < self.grid.len() {
                out.push(&self.grid[i]);
                assert(o == Some(q));
                assert(ps + opt_seq(o) == ps.push(q));
            } else {
                assert(ps + opt_seq(o) =~= ps);
            }
        } else {
            assert(ps + opt_seq(o) =~= ps);
        }
    }

    /// The stored cardinal neighbours of `pos` (up to four), in storage order.
    pub fn adjacent(&self, pos: UVec2) -> (r: Vec<&GridItem<T>>)
        requires
            self.wf(),
        ensures
            self.refs_match(r@, cardinal_neighbors(pos, self.spec_size(), self.items().len())),
    {
        let ghost size = self.spec_size();
        let ghost len = self.items().len();
        let mut out: Vec<&GridItem<T>> = Vec::with_capacity(4);
        let ghost s0 = Seq::<UVec2>::empty();
        let ghost s1 = s0 + opt_seq(offset_in(pos, 0, -1, size, len));
        let ghost s2 = s1 + opt_seq(offset_in(pos, -1, 0, size, len));
        let ghost s3 = s2 + opt_seq(offset_in(pos, 1, 0, size, len));
        let ghost s4 = s3 + opt_seq(offset_in(pos, 0, 1, size, len));
        self.push_neighbor(&mut out, pos, 0, -1, Ghost(s0));
        self.push_neighbor(&mut out, pos, -1, 0, Ghost(s1));
        self.push_neighbor(&mut out, pos, 1, 0, Ghost(s2));
        self.push_neighbor(&mut out, pos, 0, 1, Ghost(s3));
        assert(s4 =~= cardinal_neighbors(pos, size, len));
        out
    }

    /// The stored neighbours of `pos` among the eight surrounding cells, in
    /// storage order.
    pub fn adjacent_diagonal(&self, pos: UVec2) -> (r: Vec<&GridItem<T>>)
        requires
            self.wf(),
        ensures
            self.refs_match(r@, diagonal_neighbors(pos, self.spec_size(), self.items().len())),
    {
        let ghost size = self.spec_size();
        let ghost len = self.items().len();
        let mut out: Vec<&GridItem<T>> = Vec::with_capacity(8);
        let ghost s0 = Seq::<UVec2>::empty();
        let ghost s1 = s0 + opt_seq(offset_in(pos, -1, -1, size, len));
        let ghost s2 = s1 + opt_seq(offset_in(pos, 0, -1, size, len));
        let ghost s3 = s2 + opt_seq(offset_in(pos, 1, -1, size, len));
        let ghost s4 = s3 + opt_seq(offset_in(pos, -1, 0, size, len));
        let ghost s5 = s4 + opt_seq(offset_in(pos, 1, 0, size, len));
        let ghost s6 = s5 + opt_seq(offset_in(pos, -1, 1, size, len));
        let ghost s7 = s6 + opt_seq(offset_in(pos, 0, 1, size, len));
        let ghost s8 = s7 + opt_seq(offset_in(pos, 1, 1, size, len));
        self.push_neighbor(&mut out, pos, -1, -1, Ghost(s0));
        self.push_neighbor(&mut out, pos, 0, -1, Ghost(s1));
        self.push_neighbor(&mut out, pos, 1, -1, Ghost(s2));
        self.push_neighbor(&mut out, pos, -1, 0, Ghost(s3));
        self.push_neighbor(&mut out, pos, 1, 0, Ghost(s4));
        self.push_neighbor(&mut out, pos, -1, 1, Ghost(s5));
        self.push_neighbor(&mut out, pos, 0, 1, Ghost(s6));
        self.push_neighbor(&mut out, pos, 1, 1, Ghost(s7));
        assert(s8 =~= diagonal_neighbors(pos, size, len));
        out
    }

    /// All stored items, in storage order.
    pub fn tiles(&self) -> (r: &[GridItem<T>])
        ensures
            r@ == self.items(),
    {
        self.grid.as_slice()
    }
}

impl<T: Clone> Grid<T> {
    /// Stores every cell of the grid, each a clone of `item`, replacing what
    /// was stored before.
    pub fn fill(&mut self, item: T)
        requires
            area(old(self).spec_size()) <= u32::MAX,
        ensures
            final(self).wf(),
            final(self).is_full(),
            final(self).spec_size() == old(self).spec_size(),
            forall|i: int|
                0 <= i < final(self).cells().len() ==> cloned(item, #[trigger] final(self).cells()[i]),
    {
        let w = self.size.x;
        let h = self.size.y;
        self.grid = Vec::new();
        assert(self.items().len() == 0);
        assert(0 * (w as int) == 0);
        for y in 0..h
            invariant
                self.wf(),
                self.spec_size().x == w,
                self.spec_size().y == h,
                self.items().len() == (y as int) * (w as int),
                forall|i: int|
                    0 <= i < self.items().len() ==> cloned(item, #[trigger] self.items()[i].spec_contents()),
        {
            for x in 0..w
                invariant
                    self.wf(),
                    self.spec_size().x == w,
                    self.spec_size().y == h,
                    y < h,
                    self.items().len() == (y as int) * (w as int) + x,
                    forall|i: int|
                        0 <= i < self.items().len() ==> cloned(item, #[trigger] self.items()[i].spec_contents()),
            {
                let p = UVec2 { x, y };
                proof {
                    lemma_index_round_trip(p, self.size);
                }
                self.push(GridItem::new(p, item.clone()));
            }
            assert((y as int) * (w as int) + (w as int) == (y + 1) * (w as int)) by (nonlinear_arith);
        }
        assert((h as int) * (w as int) == area(self.spec_size())) by (nonlinear_arith)
            requires
                self.spec_size().x == w,
                self.spec_size().y == h,
        ;
    }
}

} // verus!
