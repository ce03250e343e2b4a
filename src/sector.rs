//! The finished map: a named grid of tiles and the units placed on it.
use vstd::prelude::*;

use crate::grid::{
    area, in_bounds, index_of, lemma_index_round_trip, lemma_pos_of_in_bounds, offset_in, pos_of,
    Grid, GridItem, UVec2,
};

verus! {

/// One tile of a finished sector: where its sprite sits in the atlas, and the
/// movement cost of stepping onto it.
#[derive(Clone, Copy, Debug, PartialEq, Eq, Structural)]
pub struct Tile {
    atlas_position: UVec2,
    move_cost: u32,
}

impl Tile {
    pub closed spec fn spec_atlas_position(&self) -> UVec2 {
        self.atlas_position
    }

    pub closed spec fn spec_move_cost(&self) -> u32 {
        self.move_cost
    }

    /// A tile whose entry costs `move_cost` movement points; plain ground
    /// costs one.
    pub fn new(atlas_position: UVec2, move_cost: u32) -> (r: Self)
        ensures
            r.spec_atlas_position() == atlas_position,
            r.spec_move_cost() == move_cost,
    {
        Self { atlas_position, move_cost }
    }

    pub fn move_cost(&self) -> (r: u32)
        ensures
            r == self.spec_move_cost(),
    {
        self.move_cost
    }

    pub fn atlas_position(&self) -> (r: UVec2)
        ensures
            r == self.spec_atlas_position(),
    {
        self.atlas_position
    }
}

/// A finished map: a name, a grid of tiles and the units on it.
pub struct Sector {
    name: String,
    tiles: Grid<Tile>,
    units: Vec<Unit>,
}

impl Sector {
    pub closed spec fn spec_name(&self) -> Seq<char> {
        self.name@
    }

    pub closed spec fn spec_tiles(&self) -> Grid<Tile> {
        self.tiles
    }

    pub closed spec fn spec_units(&self) -> Seq<Unit> {
        self.units@
    }

    /// The tile grid is well formed.
    pub open spec fn wf(&self) -> bool {
        self.spec_tiles().wf()
    }

    pub fn new(name: String, tiles: Grid<Tile>, units: Vec<Unit>) -> (r: Self)
        ensures
            r.spec_name() == name@,
            r.spec_tiles() == tiles,
            r.spec_units() == units@,
    {
        Self { name, tiles, units }
    }

    pub fn width(&self) -> (r: u32)
        ensures
            r == self.spec_tiles().spec_size().x,
    {
        self.tiles.width()
    }

    pub fn height(&self) -> (r: u32)
        ensures
            r == self.spec_tiles().spec_size().y,
    {
        self.tiles.height()
    }

    pub fn size(&self) -> (r: UVec2)
        ensures
            r == self.spec_tiles().spec_size(),
    {
        self.tiles.size()
    }

    pub fn name(&self) -> (r: &str)
        ensures
            r@ == self.spec_name(),
    {
        self.name.as_str()
    }

    pub fn units(&self) -> (r: &[Unit])
        ensures
            r@ == self.spec_units(),
    {
        self.units.as_slice()
    }

    /// The tile at `pos`, or `None` outside the sector.
    pub fn tile(&self, pos: UVec2) -> (r: Option<&GridItem<Tile>>)
        requires
            self.wf(),
        ensures
            r is Some <==> self.spec_tiles().stored_at(pos),
            r is Some ==> *r.unwrap() == self.spec_tiles().items()[index_of(
                pos,
                self.spec_tiles().spec_size().x,
            )],
    {
        self.tiles.tile(pos)
    }

    /// All tiles, in storage order.
    pub fn tiles(&self) -> (r: &[GridItem<Tile>])
        ensures
            r@ == self.spec_tiles().items(),
    {
        self.tiles.tiles()
    }

    pub fn add_unit(&mut self, u: Unit)
        ensures
            final(self).spec_name() == old(self).spec_name(),
            final(self).spec_tiles() == old(self).spec_tiles(),
            final(self).spec_units() == old(self).spec_units().push(u),
    {
        self.units.push(u);
    }

    /// The tile at `pos`, for mutation; `None` outside the sector.
    pub fn tile_mut(&mut self, pos: UVec2) -> (r: Option<&mut GridItem<Tile>>)
        requires
            old(self).wf(),
        ensures
            r is Some <==> old(self).spec_tiles().stored_at(pos),
            r is Some ==> *r.unwrap() == old(self).spec_tiles().items()[index_of(
                pos,
                old(self).spec_tiles().spec_size().x,
            )],
            r is Some ==> final(self).spec_tiles().items() == old(self).spec_tiles().items().update(
                index_of(pos, old(self).spec_tiles().spec_size().x),
                *final(r.unwrap()),
            ),
            r is None ==> final(self).spec_tiles() == old(self).spec_tiles(),
            final(self).spec_tiles().spec_size() == old(self).spec_tiles().spec_size(),
            final(self).spec_name() == old(self).spec_name(),
            final(self).spec_units() == old(self).spec_units(),
    {
        self.tiles.tile_mut(pos)
    }

    /// The first unit standing at `pos`, if any.
    pub fn unit_at_tile(&self, pos: UVec2) -> (r: Option<&Unit>)
        ensures
            r is None <==> forall|k: int|
                0 <= k < self.spec_units().len() ==> (#[trigger] self.spec_units()[k]).spec_pos() != pos,
            r is Some ==> exists|k: int|
                0 <= k < self.spec_units().len() && *r.unwrap() == #[trigger] self.spec_units()[k]
                    && self.spec_units()[k].spec_pos() == pos && forall|j: int|
                    0 <= j < k ==> (#[trigger] self.spec_units()[j]).spec_pos() != pos,
    {
        for k in 0..self.units.len()
            invariant
                forall|j: int| 0 <= j < k ==> (#[trigger] self.spec_units()[j]).spec_pos() != pos,
        {
            let upos = self.units[k].pos();
            if upos.x == pos.x && upos.y == pos.y {
                assert(self.spec_units()[k as int].spec_pos() == pos);
                return Some(&self.units[k]);
            }
        }
        None
    }

    /// The first unit standing at `pos`, for mutation.
    pub fn unit_at_tile_mut(&mut self, pos: UVec2) -> (r: Option<&mut Unit>)
        ensures
            r is None <==> forall|k: int|
                0 <= k < old(self).spec_units().len() ==> (#[trigger] old(self).spec_units()[k]).spec_pos()
                    != pos,
            r is None ==> final(self).spec_units() == old(self).spec_units(),
            r is Some ==> exists|k: int|
                0 <= k < old(self).spec_units().len() && *r.unwrap() == #[trigger] old(self).spec_units()[k]
                    && old(self).spec_units()[k].spec_pos() == pos && (forall|j: int|
                    0 <= j < k ==> (#[trigger] old(self).spec_units()[j]).spec_pos() != pos)
                    && final(self).spec_units() == old(self).spec_units().update(k, *final(r.unwrap())),
            final(self).spec_name() == old(self).spec_name(),
            final(self).spec_tiles() == old(self).spec_tiles(),
    {
        let n = self.units.len();
        let mut found: Option<usize> = None;
        for k in 0..n
            invariant
                n == self.spec_units().len(),
                found is None ==> forall|j: int| 0 <= j < k ==> (#[trigger] self.spec_units()[j]).spec_pos() != pos,
                found is Some ==> found.unwrap() < n && self.spec_units()[found.unwrap() as int].spec_pos() == pos
                    && forall|j: int| 0 <= j < found.unwrap() ==> (#[trigger] self.spec_units()[j]).spec_pos() != pos,
        {
            if found.is_none() {
                let upos = self.units[k].pos();
                if upos.x == pos.x && upos.y == pos.y {
                    found = Some(k);
                }
            }
        }
        match found {
            Some(k) => Some(&mut self.units[k]),
            None => None,
        }
    }

    /// Row-major index of `pos`.
    pub fn index(&self, pos: UVec2) -> (r: u32)
        requires
            index_of(pos, self.spec_tiles().spec_size().x) <= u32::MAX,
        ensures
            r == index_of(pos, self.spec_tiles().spec_size().x),
    {
        proof {
            let w = self.tiles.spec_size().x;
            assert((pos.y as int) * (w as int) >= 0) by (nonlinear_arith);
            assert((pos.y as int) * (w as int) <= u32::MAX) by (nonlinear_arith)
                requires
                    (pos.y as int) * (w as int) + (pos.x as int) <= u32::MAX,
                    pos.x >= 0,
            ;
        }
        pos.y * self.size().x + pos.x
    }

    /// Coordinate of row-major index `index`.
    pub fn from_index(&self, index: u32) -> (r: UVec2)
        requires
            self.spec_tiles().spec_size().x > 0,
        ensures
            r == crate::grid::pos_of(index as int, self.spec_tiles().spec_size().x),
    {
        UVec2::new(index % self.width(), index / self.width())
    }
}

/// Distance between two coordinates when diagonal steps count as one.
pub open spec fn chebyshev(a: UVec2, b: UVec2) -> nat {
    let dx = if a.x >= b.x { a.x - b.x } else { b.x - a.x };
    let dy = if a.y >= b.y { a.y - b.y } else { b.y - a.y };
    if dx >= dy { dx as nat } else { dy as nat }
}

/// The smaller of two optional costs; an absent cost counts as infinite.
pub open spec fn opt_min(a: Option<nat>, b: Option<nat>) -> Option<nat> {
    match (a, b) {
        (Some(x), Some(y)) => Some(if x <= y { x } else { y }),
        (Some(x), None) => Some(x),
        (None, _) => b,
    }
}

/// The cost of stepping onto cell `i`, when the sector stores a tile there.
pub open spec fn entry_cost(tiles: Grid<Tile>, i: int) -> Option<nat> {
    if 0 <= i < tiles.cells().len() {
        Some(tiles.cells()[i].spec_move_cost() as nat)
    } else {
        None
    }
}

/// What cell `i` would cost when entered from its neighbour at offset
/// `(dx, dy)`: only a neighbour on ring `r` around `origin` that already has a
/// cost offers one.
pub open spec fn offered_cost(
    costs: Seq<Option<nat>>,
    tiles: Grid<Tile>,
    origin: UVec2,
    r: nat,
    i: int,
    dx: int,
    dy: int,
) -> Option<nat> {
    let size = tiles.spec_size();
    match offset_in(pos_of(i, size.x), dx, dy, size, costs.len()) {
        Some(q) => if chebyshev(origin, q) == r && costs[index_of(q, size.x)] is Some && entry_cost(
            tiles,
            i,
        ) is Some {
            Some(costs[index_of(q, size.x)].unwrap() + entry_cost(tiles, i).unwrap())
        } else {
            None
        },
        None => None,
    }
}

/// One ring of relaxation: each cell keeps the lowest of its own cost and the
/// costs offered by its cardinal neighbours on ring `r`, all read from the
/// costs as they stood before the ring.
pub open spec fn relax_ring(costs: Seq<Option<nat>>, tiles: Grid<Tile>, origin: UVec2, r: nat) -> Seq<
    Option<nat>,
> {
    Seq::new(
        costs.len(),
        |i: int|
            opt_min(
                costs[i],
                opt_min(
                    offered_cost(costs, tiles, origin, r, i, 0, -1),
                    opt_min(
                        offered_cost(costs, tiles, origin, r, i, -1, 0),
                        opt_min(
                            offered_cost(costs, tiles, origin, r, i, 1, 0),
                            offered_cost(costs, tiles, origin, r, i, 0, 1),
                        ),
                    ),
                ),
            ),
    )
}

/// The costs after the first `k` rings: before any ring only the origin has
/// a cost, zero.
pub open spec fn ring_costs(tiles: Grid<Tile>, origin: UVec2, k: nat) -> Seq<Option<nat>>
    decreases k,
{
    if k == 0 {
        Seq::new(
            area(tiles.spec_size()),
            |i: int|
                if i == index_of(origin, tiles.spec_size().x) {
                    Some(0nat)
                } else {
                    None
                },
        )
    } else {
        relax_ring(ring_costs(tiles, origin, (k - 1) as nat), tiles, origin, (k - 1) as nat)
    }
}

/// The number of rings swept around `origin`: the least of its coordinates
/// and of the sector's extent beyond them.
pub open spec fn max_radius(origin: UVec2, size: UVec2) -> nat {
    let a = origin.x as int;
    let b = size.x - origin.x;
    let c = origin.y as int;
    let d = size.y - origin.y;
    let m1 = if a <= b { a } else { b };
    let m2 = if c <= d { c } else { d };
    (if m1 <= m2 { m1 } else { m2 }) as nat
}

/// The cost field of a unit at `origin`: the costs after every ring.
pub open spec fn cost_field(tiles: Grid<Tile>, origin: UVec2) -> Seq<Option<nat>> {
    ring_costs(tiles, origin, max_radius(origin, tiles.spec_size()))
}

/// Which cells a unit at `origin` with movement `budget` reaches: those with a
/// cost no greater than the budget.
pub open spec fn reachable_mask(tiles: Grid<Tile>, origin: UVec2, budget: nat) -> Seq<bool> {
    cost_field(tiles, origin).map_values(
        |c: Option<nat>|
            match c {
                Some(v) => v <= budget,
                None => false,
            },
    )
}

/// A unit on a sector: its position, its movement budget and, once computed,
/// which tiles it can reach.
pub struct Unit {
    pos: UVec2,
    nav: Option<NavigationBitmask>,
    movement: u64,
}

impl Unit {
    pub closed spec fn spec_pos(&self) -> UVec2 {
        self.pos
    }

    pub closed spec fn spec_movement(&self) -> u64 {
        self.movement
    }

    pub closed spec fn spec_nav(&self) -> Option<NavigationBitmask> {
        self.nav
    }

    /// A unit at `pos` with movement budget `movement`, with the tiles of
    /// `sector` it can reach already computed. Fails when `pos` lies outside
    /// the sector (every position does, on an empty sector).
    pub fn new(pos: UVec2, movement: u64, sector: &Sector) -> (r: Result<Unit, ()>)
        requires
            sector.wf(),
        ensures
            r is Err <==> !in_bounds(pos, sector.spec_tiles().spec_size()),
            r is Ok ==> {
                let u = r->Ok_0;
                &&& u.spec_pos() == pos
                &&& u.spec_movement() == movement
                &&& u.spec_nav() is Some
                &&& u.spec_nav().unwrap().spec_size() == sector.spec_tiles().spec_size()
                &&& u.spec_nav().unwrap().spec_tiles() == reachable_mask(
                    sector.spec_tiles(),
                    pos,
                    movement as nat,
                )
            },
    {
        let mut unit = Unit { pos, nav: None, movement };
        match NavigationBitmask::generate(&unit, sector) {
            Ok(nav) => {
                unit.nav = Some(nav);
                Ok(unit)
            },
            Err(e) => Err(e),
        }
    }

    pub fn pos(&self) -> (r: UVec2)
        ensures
            r == self.spec_pos(),
    {
        self.pos
    }

    /// Whether the unit can reach the tile at `pos`; `None` when reachability
    /// was never computed or `pos` lies outside the computed mask.
    pub fn can_reach_tile(&self, pos: UVec2) -> (r: Option<bool>)
        ensures
            self.spec_nav() is None ==> r is None,
            self.spec_nav() is Some ==> {
                let m = self.spec_nav().unwrap();
                let i = index_of(pos, m.spec_size().x);
                &&& r is Some <==> in_bounds(pos, m.spec_size()) && i < m.spec_tiles().len()
                &&& r is Some ==> r.unwrap() == m.spec_tiles()[i]
            },
    {
        match &self.nav {
            Some(nav) => nav.tile(pos),
            None => None,
        }
    }

    pub fn movement(&self) -> (r: u64)
        ensures
            r == self.spec_movement(),
    {
        self.movement
    }
}

/// One flag per tile of a sector: whether a unit can reach that tile.
pub struct NavigationBitmask {
    movable_tiles: Vec<bool>,
    size: UVec2,
}

/// An optional cost as a natural number.
pub open spec fn opt_nat(c: Option<u64>) -> Option<nat> {
    match c {
        Some(v) => Some(v as nat),
        None => None,
    }
}

/// The largest cost of stepping onto one tile.
pub open spec fn max_step() -> nat {
    u32::MAX as nat
}

/// After `k` rings no cost exceeds `k` steps of the largest cost.
proof fn lemma_ring_costs_bounded(tiles: Grid<Tile>, origin: UVec2, k: nat)
    ensures
        ring_costs(tiles, origin, k).len() == area(tiles.spec_size()),
        forall|i: int|
            0 <= i < ring_costs(tiles, origin, k).len() && (#[trigger] ring_costs(tiles, origin, k)[i]) is Some
                ==> ring_costs(tiles, origin, k)[i].unwrap() <= k * max_step(),
    decreases k,
{
    if k > 0 {
        let prev = ring_costs(tiles, origin, (k - 1) as nat);
        lemma_ring_costs_bounded(tiles, origin, (k - 1) as nat);
        let cur = ring_costs(tiles, origin, k);
        assert forall|i: int| 0 <= i < cur.len() && (#[trigger] cur[i]) is Some implies cur[i].unwrap()
            <= k * max_step() by {
            assert((k - 1) * max_step() + max_step() == k * max_step()) by (nonlinear_arith);
            assert(0 <= (k - 1) * max_step()) by (nonlinear_arith)
                requires
                    k > 0,
            ;
            let r = (k - 1) as nat;
            let size = tiles.spec_size();
            assert forall|dx: int, dy: int|
                (#[trigger] offered_cost(prev, tiles, origin, r, i, dx, dy)) is Some implies offered_cost(
                prev,
                tiles,
                origin,
                r,
                i,
                dx,
                dy,
            ).unwrap() <= k * max_step() by {
                let q = offset_in(pos_of(i, size.x), dx, dy, size, prev.len()).unwrap();
                lemma_index_round_trip(q, size);
            }
        }
    }
}

/// A cost never rises from one ring to the next, so the origin keeps cost zero.
proof fn lemma_origin_cost_zero(tiles: Grid<Tile>, origin: UVec2, k: nat)
    requires
        in_bounds(origin, tiles.spec_size()),
    ensures
        ring_costs(tiles, origin, k)[index_of(origin, tiles.spec_size().x)] == Some(0nat),
    decreases k,
{
    lemma_index_round_trip(origin, tiles.spec_size());
    if k > 0 {
        lemma_origin_cost_zero(tiles, origin, (k - 1) as nat);
        lemma_ring_costs_bounded(tiles, origin, (k - 1) as nat);
    }
}

/// Reachability grows with the budget: every tile reachable with budget `m1`
/// stays reachable with any budget `m2` at least as large, and the unit's own
/// tile is reachable with every budget.
pub proof fn lemma_reach_monotone(tiles: Grid<Tile>, origin: UVec2, m1: nat, m2: nat)
    requires
        in_bounds(origin, tiles.spec_size()),
        m1 <= m2,
    ensures
        reachable_mask(tiles, origin, m1).len() == area(tiles.spec_size()),
        reachable_mask(tiles, origin, m2).len() == area(tiles.spec_size()),
        forall|i: int|
            0 <= i < area(tiles.spec_size()) && #[trigger] reachable_mask(tiles, origin, m1)[i]
                ==> reachable_mask(tiles, origin, m2)[i],
        reachable_mask(tiles, origin, m1)[index_of(origin, tiles.spec_size().x)],
{
    let k = max_radius(origin, tiles.spec_size());
    lemma_ring_costs_bounded(tiles, origin, k);
    lemma_origin_cost_zero(tiles, origin, k);
    lemma_index_round_trip(origin, tiles.spec_size());
}

/// `b` is one cardinal step away from `a`.
pub open spec fn steps_to(a: UVec2, b: UVec2) -> bool {
    (a.x == b.x && (a.y + 1 == b.y || b.y + 1 == a.y)) || (a.y == b.y && (a.x + 1 == b.x || b.x + 1
        == a.x))
}

/// A walk over the sector from `origin`: every later cell is a stored tile one
/// cardinal step from the cell before it.
pub open spec fn is_walk(tiles: Grid<Tile>, origin: UVec2, walk: Seq<UVec2>) -> bool {
    &&& walk.len() > 0
    &&& walk[0] == origin
    &&& forall|k: int|
        1 <= k < walk.len() ==> tiles.stored_at(#[trigger] walk[k]) && steps_to(walk[k - 1], walk[k])
}

/// What a walk costs: the movement cost of every tile stepped onto.
pub open spec fn walk_cost(tiles: Grid<Tile>, walk: Seq<UVec2>) -> nat
    decreases walk.len(),
{
    if walk.len() <= 1 {
        0
    } else {
        walk_cost(tiles, walk.drop_last()) + tiles.cells()[index_of(
            walk.last(),
            tiles.spec_size().x,
        )].spec_move_cost() as nat
    }
}

/// The lower of two optional costs is one of them.
proof fn lemma_opt_min_is_one(a: Option<nat>, b: Option<nat>)
    ensures
        opt_min(a, b) is Some ==> opt_min(a, b) == a || opt_min(a, b) == b,
{
}

/// Every cost the sweep assigns is the cost of a real walk from the origin to
/// that tile.
proof fn lemma_ring_costs_sound(tiles: Grid<Tile>, origin: UVec2, k: nat)
    requires
        in_bounds(origin, tiles.spec_size()),
    ensures
        forall|i: int|
            0 <= i < ring_costs(tiles, origin, k).len() && (#[trigger] ring_costs(tiles, origin, k)[i]) is Some
                ==> exists|walk: Seq<UVec2>|
                is_walk(tiles, origin, walk) && walk.last() == pos_of(i, tiles.spec_size().x)
                    && #[trigger] walk_cost(tiles, walk) == ring_costs(tiles, origin, k)[i].unwrap(),
    decreases k,
{
    let size = tiles.spec_size();
    lemma_ring_costs_bounded(tiles, origin, k);
    if k == 0 {
        assert forall|i: int|
            0 <= i < ring_costs(tiles, origin, k).len() && (#[trigger] ring_costs(tiles, origin, k)[i]) is Some
                implies exists|walk: Seq<UVec2>|
            is_walk(tiles, origin, walk) && walk.last() == pos_of(i, size.x) && #[trigger] walk_cost(
                tiles,
                walk,
            ) == ring_costs(tiles, origin, k)[i].unwrap() by {
            lemma_index_round_trip(origin, size);
            let walk = seq![origin];
            assert(walk_cost(tiles, walk) == 0);
        }
    } else {
        let r = (k - 1) as nat;
        let prev = ring_costs(tiles, origin, r);
        lemma_ring_costs_sound(tiles, origin, r);
        lemma_ring_costs_bounded(tiles, origin, r);
        let cur = ring_costs(tiles, origin, k);
        assert forall|i: int| 0 <= i < cur.len() && (#[trigger] cur[i]) is Some implies exists|
            walk: Seq<UVec2>,
        |
            is_walk(tiles, origin, walk) && walk.last() == pos_of(i, size.x) && #[trigger] walk_cost(
                tiles,
                walk,
            ) == cur[i].unwrap() by {
            let o1 = offered_cost(prev, tiles, origin, r, i, 0, -1);
            let o2 = offered_cost(prev, tiles, origin, r, i, -1, 0);
            let o3 = offered_cost(prev, tiles, origin, r, i, 1, 0);
            let o4 = offered_cost(prev, tiles, origin, r, i, 0, 1);
            lemma_opt_min_is_one(o3, o4);
            lemma_opt_min_is_one(o2, opt_min(o3, o4));
            lemma_opt_min_is_one(o1, opt_min(o2, opt_min(o3, o4)));
            lemma_opt_min_is_one(prev[i], opt_min(o1, opt_min(o2, opt_min(o3, o4))));
            if cur[i] == prev[i] {
            } else {
                let dxy = if cur[i] == o1 {
                    (0int, -1int)
                } else if cur[i] == o2 {
                    (-1int, 0int)
                } else if cur[i] == o3 {
                    (1int, 0int)
                } else {
                    (0int, 1int)
                };
                let dx = dxy.0;
                let dy = dxy.1;
                assert(cur[i] == offered_cost(prev, tiles, origin, r, i, dx, dy));
                let p = pos_of(i, size.x);
                let q = offset_in(p, dx, dy, size, prev.len()).unwrap();
                let qi = index_of(q, size.x);
                lemma_index_round_trip(q, size);
                lemma_pos_of_in_bounds(i, size);
                assert(prev[qi] is Some);
                let w = choose|w: Seq<UVec2>|
                    is_walk(tiles, origin, w) && w.last() == pos_of(qi, size.x) && #[trigger] walk_cost(
                        tiles,
                        w,
                    ) == prev[qi].unwrap();
                let walk = w.push(p);
                assert(walk.drop_last() =~= w);
                assert(tiles.stored_at(p));
                assert(steps_to(q, p));
                assert forall|m: int| 1 <= m < walk.len() implies tiles.stored_at(#[trigger] walk[m])
                    && steps_to(walk[m - 1], walk[m]) by {
                    if m < w.len() {
                        assert(walk[m] == w[m]);
                        assert(walk[m - 1] == w[m - 1]);
                    }
                }
                assert(is_walk(tiles, origin, walk));
                assert(walk_cost(tiles, walk) == cur[i].unwrap());
            }
        }
    }
}

/// Every tile marked reachable can be reached: some walk from the unit's tile
/// ends there and costs no more than the budget.
pub proof fn lemma_reach_sound(tiles: Grid<Tile>, origin: UVec2, budget: nat, i: int)
    requires
        in_bounds(origin, tiles.spec_size()),
        0 <= i < area(tiles.spec_size()),
        reachable_mask(tiles, origin, budget)[i],
    ensures
        exists|walk: Seq<UVec2>|
            is_walk(tiles, origin, walk) && walk.last() == pos_of(i, tiles.spec_size().x)
                && #[trigger] walk_cost(tiles, walk) <= budget,
{
    let k = max_radius(origin, tiles.spec_size());
    lemma_ring_costs_bounded(tiles, origin, k);
    lemma_ring_costs_sound(tiles, origin, k);
    let c = ring_costs(tiles, origin, k)[i];
    assert(c is Some);
}

/// The lower of two optional costs.
fn min_cost(a: Option<u64>, b: Option<u64>) -> (r: Option<u64>)
    ensures
        opt_nat(r) == opt_min(opt_nat(a), opt_nat(b)),
{
    match (a, b) {
        (Some(x), Some(y)) => Some(if x <= y { x } else { y }),
        (Some(x), None) => Some(x),
        (None, _) => b,
    }
}

/// The Chebyshev distance between two coordinates.
fn chebyshev_distance(a: UVec2, b: UVec2) -> (r: u32)
    ensures
        r == chebyshev(a, b),
{
    let dx = if a.x >= b.x { a.x - b.x } else { b.x - a.x };
    let dy = if a.y >= b.y { a.y - b.y } else { b.y - a.y };
    if dx >= dy { dx } else { dy }
}

impl NavigationBitmask {
    pub closed spec fn spec_tiles(&self) -> Seq<bool> {
        self.movable_tiles@
    }

    pub closed spec fn spec_size(&self) -> UVec2 {
        self.size
    }

    /// Sweeps the rings around the unit, then marks every tile whose cost is
    /// within the unit's movement. Fails when the unit stands outside the
    /// sector, so that no search radius exists.
    pub fn generate(unit: &Unit, sector: &Sector) -> (r: Result<Self, ()>)
        requires
            sector.wf(),
        ensures
            r is Err <==> !in_bounds(unit.spec_pos(), sector.spec_tiles().spec_size()),
            r is Ok ==> r->Ok_0.spec_size() == sector.spec_tiles().spec_size() && r->Ok_0.spec_tiles()
                == reachable_mask(sector.spec_tiles(), unit.spec_pos(), unit.spec_movement() as nat),
    {
        let pos = unit.pos();
        let size = sector.size();
        if !(pos.x < size.x && pos.y < size.y) {
            return Err(());
        }
        let ghost tiles = sector.spec_tiles();
        let n = size.x as usize * size.y as usize;
        let mut tile_costs: Vec<Option<u64>> = Vec::with_capacity(n);
        for i in 0..n
            invariant
                tile_costs@.len() == i,
                forall|j: int| 0 <= j < i ==> (#[trigger] tile_costs@[j]) is None,
        {
            tile_costs.push(None);
        }
        proof {
            lemma_index_round_trip(pos, size);
        }
        let origin_index = sector.index(pos) as usize;
        tile_costs.set(origin_index, Some(0));
        proof {
            assert(tile_costs@.map_values(|c: Option<u64>| opt_nat(c)) =~= ring_costs(tiles, pos, 0));
        }
        let sector_unx = size.x - pos.x;
        let sector_uny = size.y - pos.y;
        let a = if pos.x <= sector_unx { pos.x } else { sector_unx };
        let b = if pos.y <= sector_uny { pos.y } else { sector_uny };
        let radius = if a <= b { a } else { b };
        for r in 0..radius
            invariant
                sector.wf(),
                tiles == sector.spec_tiles(),
                size == tiles.spec_size(),
                n == area(size),
                tile_costs@.len() == n,
                radius < u32::MAX,
                tile_costs@.map_values(|c: Option<u64>| opt_nat(c)) == ring_costs(tiles, pos, r as nat),
        {
            let ghost before = tile_costs@.map_values(|c: Option<u64>| opt_nat(c));
            proof {
                lemma_ring_costs_bounded(tiles, pos, r as nat);
                assert forall|j: int|
                    0 <= j < tile_costs@.len() && (#[trigger] tile_costs@[j]) is Some implies tile_costs@[j].unwrap()
                    <= r * max_step() by {
                    assert(before[j] == opt_nat(tile_costs@[j]));
                }
            }
            let mut next: Vec<Option<u64>> = Vec::with_capacity(n);
            for i in 0..n
                invariant
                    sector.wf(),
                    tiles == sector.spec_tiles(),
                    size == tiles.spec_size(),
                    n == area(size),
                    tile_costs@.len() == n,
                    r < radius,
                    radius < u32::MAX,
                    before == tile_costs@.map_values(|c: Option<u64>| opt_nat(c)),
                    forall|j: int|
                        0 <= j < tile_costs@.len() && (#[trigger] tile_costs@[j]) is Some ==> tile_costs@[j].unwrap()
                            <= r * max_step(),
                    next@.len() == i,
                    forall|j: int|
                        0 <= j < i ==> opt_nat(#[trigger] next@[j]) == relax_ring(before, tiles, pos, r as nat)[j],
            {
                let down = Self::offered(&tile_costs, sector, pos, r, i, 0, -1);
                let left = Self::offered(&tile_costs, sector, pos, r, i, -1, 0);
                let right = Self::offered(&tile_costs, sector, pos, r, i, 1, 0);
                let up = Self::offered(&tile_costs, sector, pos, r, i, 0, 1);
                let best = min_cost(tile_costs[i], min_cost(down, min_cost(left, min_cost(right, up))));
                next.push(best);
            }
            tile_costs = next;
            proof {
                assert(tile_costs@.map_values(|c: Option<u64>| opt_nat(c)) =~= relax_ring(before, tiles, pos, r as nat));
            }
        }
        let movement = unit.movement();
        let mut movable_tiles: Vec<bool> = Vec::with_capacity(n);
        let ghost field = tile_costs@.map_values(|c: Option<u64>| opt_nat(c));
        for i in 0..n
            invariant
                tile_costs@.len() == n,
                field == tile_costs@.map_values(|c: Option<u64>| opt_nat(c)),
                movable_tiles@.len() == i,
                forall|j: int|
                    0 <= j < i ==> #[trigger] movable_tiles@[j] == match field[j] {
                        Some(v) => v <= movement as nat,
                        None => false,
                    },
        {
            let reachable = match tile_costs[i] {
                Some(c) => c <= movement,
                None => false,
            };
            movable_tiles.push(reachable);
        }
        proof {
            assert(radius == max_radius(pos, size));
            assert(movable_tiles@ =~= reachable_mask(tiles, pos, movement as nat));
        }
        Ok(NavigationBitmask { movable_tiles, size })
    }

    /// The flag of the tile at `pos`, or `None` outside the mask.
    fn tile(&self, pos: UVec2) -> (r: Option<bool>)
        ensures
            r is Some <==> in_bounds(pos, self.spec_size()) && index_of(pos, self.spec_size().x)
                < self.spec_tiles().len(),
            r is Some ==> r.unwrap() == self.spec_tiles()[index_of(pos, self.spec_size().x)],
    {
        if pos.x < self.size.x && pos.y < self.size.y {
            proof {
                assert((pos.y as int) * (self.size.x as int) <= (u32::MAX as int) * (u32::MAX as int)) by (nonlinear_arith)
                    requires
                        0 <= pos.y <= u32::MAX,
                        0 <= self.size.x <= u32::MAX,
                ;
            }
            let i = pos.y as u64 * self.size.x as u64 + pos.x as u64;
            if i < self.movable_tiles.len() as u64 {
                Some(self.movable_tiles[i as usize])
            } else {
                None
            }
        } else {
            None
        }
    }

    pub fn size(&self) -> (r: UVec2)
        ensures
            r == self.spec_size(),
    {
        self.size
    }

    /// The cost offered to cell `i` by its neighbour at `(dx, dy)` during ring `r`.
    fn offered(
        costs: &Vec<Option<u64>>,
        sector: &Sector,
        origin: UVec2,
        r: u32,
        i: usize,
        dx: i64,
        dy: i64,
    ) -> (o: Option<u64>)
        requires
            sector.wf(),
            -1 <= dx <= 1,
            -1 <= dy <= 1,
            costs@.len() == area(sector.spec_tiles().spec_size()),
            i < costs@.len(),
            forall|j: int|
                0 <= j < costs@.len() && (#[trigger] costs@[j]) is Some ==> costs@[j].unwrap() <= r
                    * max_step(),
            r < u32::MAX,
        ensures
            opt_nat(o) == offered_cost(
                costs@.map_values(|c: Option<u64>| opt_nat(c)),
                sector.spec_tiles(),
                origin,
                r as nat,
                i as int,
                dx as int,
                dy as int,
            ),
    {
        let ghost view = costs@.map_values(|c: Option<u64>| opt_nat(c));
        let ghost size = sector.spec_tiles().spec_size();
        proof {
            lemma_pos_of_in_bounds(i as int, size);
        }
        let p = sector.from_index(i as u32);
        let x = p.x as i64 + dx;
        let y = p.y as i64 + dy;
        if 0 <= x && x < sector.width() as i64 && 0 <= y && y < sector.height() as i64 {
            let q = UVec2::new(x as u32, y as u32);
            proof {
                lemma_index_round_trip(q, size);
            }
            let qi = q.y as usize * sector.width() as usize + q.x as usize;
            if chebyshev_distance(origin, q) == r {
                match costs[qi] {
                    Some(c) => {
                        let tiles = sector.tiles();
                        if i < tiles.len() {
                            assert(tiles@[i as int].spec_contents() == sector.spec_tiles().cells()[i as int]);
                            let step = tiles[i].contents().move_cost();
                            assert(c + step <= (r + 1) * max_step()) by (nonlinear_arith)
                                requires
                                    c <= r * max_step(),
                                    step <= max_step(),
                            ;
                            assert((r + 1) * max_step() <= u32::MAX as int * max_step()) by (nonlinear_arith)
                                requires
                                    r < u32::MAX,
                            ;
                            Some(c + step as u64)
                        } else {
                            None
                        }
                    },
                    None => None,
                }
            } else {
                None
            }
        } else {
            None
        }
    }
}

} // verus!
