//! Wave function collapse over one subsector: cells are resolved one at a time,
//! lowest entropy first, each to a palette tile whose edges agree with its
//! already-resolved neighbours.
use rand::rngs::StdRng;
use vstd::prelude::*;

use crate::grid::{
    cardinal_neighbors, in_bounds, index_of, lemma_index_round_trip, lemma_pos_of_in_bounds,
    offset_in, opt_seq, pos_of, Grid, UVec2,
};
use crate::random::choose_one;

use super::structs::{
    Entropy, GenTile, GenTileView, GenerationStage, StaticTileInfo, Subsector, TileSpec,
};

verus! {

/// Atlas column of the tile placed where no palette tile fits.
pub const FALLBACK_X: i32 = 22;

/// Atlas row of the tile placed where no palette tile fits.
pub const FALLBACK_Y: i32 = 4;

/// The tile placed where no palette tile fits: every edge reads "grass".
pub open spec fn fallback_tile() -> TileSpec {
    TileSpec {
        x: FALLBACK_X,
        y: FALLBACK_Y,
        down: "grass"@,
        left: "grass"@,
        up: "grass"@,
        right: "grass"@,
    }
}

/// What the palette entries mean, in order.
pub open spec fn palette_view(p: Seq<StaticTileInfo>) -> Seq<TileSpec> {
    p.map_values(|t: StaticTileInfo| t@)
}

/// The resolved tile of each stored cell, in storage order.
pub open spec fn tile_layer(g: Grid<GenTile>) -> Seq<Option<TileSpec>> {
    g.cells().map_values(|c: GenTile| c@.tile)
}

/// The resolved tile of the stored cell at `p + (dx, dy)`, if there is one.
pub open spec fn neighbor_tile(
    layer: Seq<Option<TileSpec>>,
    size: UVec2,
    p: UVec2,
    dx: int,
    dy: int,
) -> Option<TileSpec> {
    match offset_in(p, dx, dy, size, layer.len()) {
        Some(q) => layer[index_of(q, size.x)],
        None => None,
    }
}

/// Tile `t` may be placed at `p`: each resolved cardinal neighbour shows, on
/// its facing edge, the label that `t` shows on the edge towards it.
pub open spec fn tile_fits(layer: Seq<Option<TileSpec>>, size: UVec2, p: UVec2, t: TileSpec) -> bool {
    &&& (neighbor_tile(layer, size, p, 0, -1) is Some ==> neighbor_tile(layer, size, p, 0, -1).unwrap().up == t.down)
    &&& (neighbor_tile(layer, size, p, -1, 0) is Some ==> neighbor_tile(layer, size, p, -1, 0).unwrap().right == t.left)
    &&& (neighbor_tile(layer, size, p, 1, 0) is Some ==> neighbor_tile(layer, size, p, 1, 0).unwrap().left == t.right)
    &&& (neighbor_tile(layer, size, p, 0, 1) is Some ==> neighbor_tile(layer, size, p, 0, 1).unwrap().down == t.up)
}

/// The palette entries that may be placed at `p`, in palette order.
pub open spec fn candidates(
    palette: Seq<TileSpec>,
    layer: Seq<Option<TileSpec>>,
    size: UVec2,
    p: UVec2,
) -> Seq<TileSpec> {
    palette.filter(|t: TileSpec| tile_fits(layer, size, p, t))
}

/// The palette tile of the stored cell at `pos + (dx, dy)`, if it is resolved.
fn neighbor_static(grid: &Grid<GenTile>, pos: UVec2, dx: i64, dy: i64) -> (r: Option<&StaticTileInfo>)
    requires
        grid.wf(),
        -1 <= dx <= 1,
        -1 <= dy <= 1,
    ensures
        r is Some <==> neighbor_tile(tile_layer(*grid), grid.spec_size(), pos, dx as int, dy as int) is Some,
        r is Some ==> r.unwrap()@ == neighbor_tile(
            tile_layer(*grid),
            grid.spec_size(),
            pos,
            dx as int,
            dy as int,
        ).unwrap(),
{
    let x = pos.x as i64 + dx;
    let y = pos.y as i64 + dy;
    if 0 <= x && x < grid.width() as i64 && 0 <= y && y < grid.height() as i64 {
        let q = UVec2 { x: x as u32, y: y as u32 };
        match grid.tile(q) {
            Some(item) => match item.contents().static_tile() {
                Some(t) => Some(t),
                None => None,
            },
            None => None,
        }
    } else {
        None
    }
}

/// Whether `stat` may be placed at `pos`, given the resolved neighbours.
pub fn tile_allowed(pos: UVec2, stat: &StaticTileInfo, grid: &Grid<GenTile>) -> (r: bool)
    requires
        grid.wf(),
    ensures
        r == tile_fits(tile_layer(*grid), grid.spec_size(), pos, stat@),
{
    let down_ok = match neighbor_static(grid, pos, 0, -1) {
        Some(n) => n.up().eq(stat.down()),
        None => true,
    };
    let left_ok = match neighbor_static(grid, pos, -1, 0) {
        Some(n) => n.right().eq(stat.left()),
        None => true,
    };
    let right_ok = match neighbor_static(grid, pos, 1, 0) {
        Some(n) => n.left().eq(stat.right()),
        None => true,
    };
    let up_ok = match neighbor_static(grid, pos, 0, 1) {
        Some(n) => n.down().eq(stat.up()),
        None => true,
    };
    down_ok && left_ok && right_ok && up_ok
}

/// The tile placed from candidate list `cs`: one of the candidates, or the
/// fallback tile when there is none.
pub open spec fn acceptable_choice(cs: Seq<TileSpec>, t: TileSpec) -> bool {
    if cs.len() == 0 {
        t == fallback_tile()
    } else {
        cs.contains(t)
    }
}

/// The palette entries that may be placed at `pos`, in palette order.
fn possible_tiles(grid: &Grid<GenTile>, pos: UVec2, static_tiles: &[StaticTileInfo]) -> (r: Vec<
    StaticTileInfo,
>)
    requires
        grid.wf(),
    ensures
        palette_view(r@) == candidates(
            palette_view(static_tiles@),
            tile_layer(*grid),
            grid.spec_size(),
            pos,
        ),
{
    let ghost layer = tile_layer(*grid);
    let ghost size = grid.spec_size();
    let ghost pred = |t: TileSpec| tile_fits(layer, size, pos, t);
    let mut out: Vec<StaticTileInfo> = Vec::new();
    for i in 0..static_tiles.len()
        invariant
            grid.wf(),
            layer == tile_layer(*grid),
            size == grid.spec_size(),
            pred == (|t: TileSpec| tile_fits(layer, size, pos, t)),
            palette_view(out@) == palette_view(static_tiles@.take(i as int)).filter(pred),
    {
        let ghost before = palette_view(static_tiles@.take(i as int));
        assert(palette_view(static_tiles@.take(i + 1)) =~= before.push(static_tiles@[i as int]@));
        proof {
            before.lemma_filter_push(static_tiles@[i as int]@, pred);
        }
        if tile_allowed(pos, &static_tiles[i], grid) {
            let t = static_tiles[i].clone();
            out.push(t);
            assert(palette_view(out@) =~= before.filter(pred).push(static_tiles@[i as int]@));
        }
    }
    assert(static_tiles@.take(static_tiles@.len() as int) =~= static_tiles@);
    out
}

/// The chosen tile, or the fallback tile when nothing was chosen.
pub fn tile_or_fallback(chosen: Option<&StaticTileInfo>) -> (r: StaticTileInfo)
    ensures
        r@ == (match chosen {
            Some(t) => t@,
            None => fallback_tile(),
        }),
{
    match chosen {
        Some(tile) => tile.clone(),
        None => StaticTileInfo::new(
            FALLBACK_X,
            FALLBACK_Y,
            String::from_str("grass"),
            String::from_str("grass"),
            String::from_str("grass"),
            String::from_str("grass"),
        ),
    }
}

/// A uniformly random tile among `possible_tiles`, or the fallback tile when
/// there is none.
pub fn choose_tile(possible_tiles: &[StaticTileInfo], rng: &mut StdRng) -> (r: StaticTileInfo)
    ensures
        possible_tiles@.len() == 0 ==> r@ == fallback_tile(),
        possible_tiles@.len() > 0 ==> palette_view(possible_tiles@).contains(r@),
{
    let chosen = choose_one(rng, possible_tiles);
    proof {
        if chosen is Some {
            let j = choose|j: int| 0 <= j < possible_tiles@.len() && possible_tiles@[j] == *chosen.unwrap();
            assert(palette_view(possible_tiles@)[j] == chosen.unwrap()@);
        }
    }
    tile_or_fallback(chosen)
}

/// Resolves the cell at `pos` to a random palette entry that fits its resolved
/// neighbours, or to the fallback tile when none fits, and settles its entropy.
/// Nothing changes when `pos` is not a stored cell.
pub fn select_tile(
    grid: &mut Grid<GenTile>,
    pos: UVec2,
    static_tiles: &[StaticTileInfo],
    rng: &mut StdRng,
)
    requires
        old(grid).wf(),
    ensures
        final(grid).wf(),
        final(grid).spec_size() == old(grid).spec_size(),
        final(grid).cells().len() == old(grid).cells().len(),
        !old(grid).stored_at(pos) ==> *final(grid) == *old(grid),
        old(grid).stored_at(pos) ==> {
            let i = index_of(pos, old(grid).spec_size().x);
            &&& forall|j: int|
                0 <= j < old(grid).cells().len() && j != i ==> #[trigger] final(grid).cells()[j]
                    == old(grid).cells()[j]
            &&& final(grid).cells()[i]@.entropy == Entropy::Settled
            &&& final(grid).cells()[i]@.tile is Some
            &&& acceptable_choice(
                candidates(palette_view(static_tiles@), tile_layer(*old(grid)), old(grid).spec_size(), pos),
                final(grid).cells()[i]@.tile.unwrap(),
            )
        },
{
    let ghost cs = candidates(palette_view(static_tiles@), tile_layer(*grid), grid.spec_size(), pos);
    let possible = possible_tiles(grid, pos, static_tiles);
    let chosen = choose_tile(possible.as_slice(), rng);
    let ghost old_grid = *grid;
    if let Some(tile) = grid.tile_mut(pos) {
        let c = tile.contents_mut();
        c.set_static_tile(chosen);
        c.remove_entropy();
    }
    proof {
        if old_grid.stored_at(pos) {
            let i = index_of(pos, old_grid.spec_size().x);
            assert forall|j: int|
                0 <= j < old_grid.cells().len() && j != i implies #[trigger] grid.cells()[j]
                == old_grid.cells()[j] by {}
        }
    }
}

/// The number of palette entries that may be placed at `pos`.
fn count_allowed(grid: &Grid<GenTile>, pos: UVec2, static_tiles: &[StaticTileInfo]) -> (r: usize)
    requires
        grid.wf(),
    ensures
        r == candidates(palette_view(static_tiles@), tile_layer(*grid), grid.spec_size(), pos).len(),
{
    let ghost layer = tile_layer(*grid);
    let ghost size = grid.spec_size();
    let ghost pred = |t: TileSpec| tile_fits(layer, size, pos, t);
    let mut count: usize = 0;
    for i in 0..static_tiles.len()
        invariant
            grid.wf(),
            layer == tile_layer(*grid),
            size == grid.spec_size(),
            pred == (|t: TileSpec| tile_fits(layer, size, pos, t)),
            count == palette_view(static_tiles@.take(i as int)).filter(pred).len(),
            count <= i,
    {
        let ghost before = palette_view(static_tiles@.take(i as int));
        assert(palette_view(static_tiles@.take(i + 1)) =~= before.push(static_tiles@[i as int]@));
        proof {
            before.lemma_filter_push(static_tiles@[i as int]@, pred);
        }
        if tile_allowed(pos, &static_tiles[i], grid) {
            count = count + 1;
        }
    }
    assert(static_tiles@.take(static_tiles@.len() as int) =~= static_tiles@);
    count
}

/// The entropy of cell `i` after its neighbour at `pos` was resolved, given the
/// resolved tiles and the cell's previous entropy: an unresolved cardinal
/// neighbour of `pos` counts the palette entries that fit it; any other cell
/// keeps its entropy.
pub open spec fn refreshed_entropy(
    layer: Seq<Option<TileSpec>>,
    size: UVec2,
    previous: Entropy,
    palette: Seq<TileSpec>,
    pos: UVec2,
    i: int,
) -> Entropy {
    let q = pos_of(i, size.x);
    if cardinal_neighbors(pos, size, layer.len()).contains(q) && layer[i] is None {
        Entropy::Calculated(candidates(palette, layer, size, q).len() as u32)
    } else {
        previous
    }
}

/// Recomputes the entropy of every unresolved cardinal neighbour of `pos`: the
/// number of palette entries whose edges agree with its resolved neighbours.
pub fn calculate_entropy(grid: &mut Grid<GenTile>, pos: UVec2, static_tiles: &[StaticTileInfo])
    requires
        old(grid).wf(),
        static_tiles@.len() <= u32::MAX,
    ensures
        final(grid).wf(),
        final(grid).spec_size() == old(grid).spec_size(),
        final(grid).cells().len() == old(grid).cells().len(),
        tile_layer(*final(grid)) == tile_layer(*old(grid)),
        forall|i: int|
            0 <= i < final(grid).cells().len() ==> #[trigger] final(grid).cells()[i]@.entropy
                == refreshed_entropy(
                tile_layer(*old(grid)),
                old(grid).spec_size(),
                old(grid).cells()[i]@.entropy,
                palette_view(static_tiles@),
                pos,
                i,
            ),
{
    let ghost g0 = *grid;
    let ghost size = grid.spec_size();
    let ghost len = grid.cells().len();
    let ghost ns = cardinal_neighbors(pos, size, len);
    let adj = grid.adjacent(pos);
    let mut positions: Vec<UVec2> = Vec::with_capacity(4);
    for k in 0..adj.len()
        invariant
            grid.wf(),
            g0 == *grid,
            size == grid.spec_size(),
            len == grid.cells().len(),
            ns == cardinal_neighbors(pos, size, len),
            grid.refs_match(adj@, ns),
            positions@ == ns.take(k as int),
    {
        let q = adj[k].pos();
        proof {
            assert(*adj@[k as int] == grid.items()[index_of(ns[k as int], size.x)]);
            assert(ns[k as int] == ns[k as int]);
            lemma_neighbor_stored(pos, size, len, k as int);
            lemma_index_round_trip(ns[k as int], size);
            assert(q == ns[k as int]);
        }
        positions.push(q);
        assert(positions@ =~= ns.take(k + 1));
    }
    assert(positions@ =~= ns);
    for k in 0..positions.len()
        invariant
            grid.wf(),
            static_tiles@.len() <= u32::MAX,
            size == grid.spec_size(),
            size == g0.spec_size(),
            len == grid.cells().len(),
            len == g0.cells().len(),
            g0.wf(),
            ns == cardinal_neighbors(pos, size, len),
            positions@ == ns,
            tile_layer(*grid) == tile_layer(g0),
            forall|i: int|
                0 <= i < len ==> #[trigger] grid.cells()[i]@ == (GenTileView {
                    tile: g0.cells()[i]@.tile,
                    entropy: if ns.take(k as int).contains(pos_of(i, size.x)) && g0.cells()[i]@.tile
                        is None {
                        Entropy::Calculated(
                            candidates(palette_view(static_tiles@), tile_layer(g0), size, pos_of(i, size.x)).len() as u32,
                        )
                    } else {
                        g0.cells()[i]@.entropy
                    },
                }),
    {
        let q = positions[k];
        proof {
            lemma_neighbor_stored(pos, size, len, k as int);
        }
        let entropy = count_allowed(grid, q, static_tiles);
        let ghost before = *grid;
        let ghost qi = index_of(q, size.x);
        proof {
            lemma_index_round_trip(q, size);
        }
        if let Some(tile) = grid.tile_mut(q) {
            if !tile.contents().tile_set() {
                tile.contents_mut().set_entropy(entropy as u32);
            }
        }
        proof {
            assert forall|i: int| 0 <= i < len implies #[trigger] grid.cells()[i]@ == (GenTileView {
                tile: g0.cells()[i]@.tile,
                entropy: if ns.take(k + 1).contains(pos_of(i, size.x)) && g0.cells()[i]@.tile
                    is None {
                    Entropy::Calculated(
                        candidates(palette_view(static_tiles@), tile_layer(g0), size, pos_of(i, size.x)).len() as u32,
                    )
                } else {
                    g0.cells()[i]@.entropy
                },
            }) by {
                lemma_pos_of_in_bounds(i, size);
                assert(ns.take(k + 1) =~= ns.take(k as int).push(q));
                if i == qi {
                    assert(pos_of(i, size.x) == q);
                    assert(ns.take(k + 1)[k as int] == q);
                    assert(ns.take(k + 1).contains(pos_of(i, size.x)));
                    assert(before.cells()[i]@.tile == g0.cells()[i]@.tile);
                } else {
                    assert(pos_of(i, size.x) != q);
                    assert(grid.cells()[i] == before.cells()[i]);
                    assert(ns.take(k + 1).contains(pos_of(i, size.x)) == ns.take(k as int).contains(pos_of(i, size.x)));
                }
            }
            assert(tile_layer(*grid) =~= tile_layer(g0));
        }
    }
    proof {
        assert(ns.take(ns.len() as int) =~= ns);
        assert forall|i: int| 0 <= i < len implies #[trigger] grid.cells()[i]@.entropy
            == refreshed_entropy(
            tile_layer(g0),
            size,
            g0.cells()[i]@.entropy,
            palette_view(static_tiles@),
            pos,
            i,
        ) by {}
    }
}

/// Each entry of the neighbour list of a coordinate is a stored cell.
proof fn lemma_neighbor_stored(pos: UVec2, size: UVec2, len: nat, k: int)
    requires
        0 <= k < cardinal_neighbors(pos, size, len).len(),
    ensures
        in_bounds(cardinal_neighbors(pos, size, len)[k], size),
        index_of(cardinal_neighbors(pos, size, len)[k], size.x) < len,
{
    let a = opt_seq(offset_in(pos, 0, -1, size, len));
    let b = opt_seq(offset_in(pos, -1, 0, size, len));
    let c = opt_seq(offset_in(pos, 1, 0, size, len));
    let d = opt_seq(offset_in(pos, 0, 1, size, len));
    let ns = cardinal_neighbors(pos, size, len);
    assert(ns == a + b + c + d);
    if k < a.len() {
        assert(ns[k] == a[k]);
    } else if k < a.len() + b.len() {
        assert(ns[k] == b[k - a.len()]);
    } else if k < a.len() + b.len() + c.len() {
        assert(ns[k] == c[k - a.len() - b.len()]);
    } else {
        assert(ns[k] == d[k - a.len() - b.len() - c.len()]);
    }
}

/// The entropy of a cell that is still unresolved and has been evaluated.
pub open spec fn open_entropy(c: GenTileView) -> Option<u32> {
    if c.tile is None {
        match c.entropy {
            Entropy::Calculated(n) => Some(n),
            _ => None,
        }
    } else {
        None
    }
}

/// Cell `i` has the lowest entropy among the evaluated unresolved cells, and
/// every earlier such cell has a strictly higher one.
pub open spec fn is_first_min_entropy(cells: Seq<GenTile>, i: int) -> bool {
    &&& 0 <= i < cells.len()
    &&& open_entropy(cells[i]@) is Some
    &&& forall|j: int|
        0 <= j < cells.len() && open_entropy(#[trigger] cells[j]@) is Some ==> open_entropy(
            cells[i]@,
        ).unwrap() <= open_entropy(cells[j]@).unwrap()
    &&& forall|j: int|
        0 <= j < i && open_entropy(#[trigger] cells[j]@) is Some ==> open_entropy(
            cells[i]@,
        ).unwrap() < open_entropy(cells[j]@).unwrap()
}

/// The unresolved cell of lowest calculated entropy, the first one on a tie;
/// `None` when no unresolved cell has a calculated entropy.
pub fn min_entropy(grid: &Grid<GenTile>) -> (r: Option<UVec2>)
    requires
        grid.wf(),
    ensures
        r is None <==> forall|j: int|
            0 <= j < grid.cells().len() ==> open_entropy(#[trigger] grid.cells()[j]@) is None,
        r is Some ==> grid.stored_at(r.unwrap()) && is_first_min_entropy(
            grid.cells(),
            index_of(r.unwrap(), grid.spec_size().x),
        ),
{
    let tiles = grid.tiles();
    let mut best: Option<usize> = None;
    let mut best_value: u32 = 0;
    for i in 0..tiles.len()
        invariant
            grid.wf(),
            tiles@ == grid.items(),
            best is None ==> forall|j: int|
                0 <= j < i ==> open_entropy(#[trigger] grid.cells()[j]@) is None,
            best is Some ==> best.unwrap() < i && open_entropy(grid.cells()[best.unwrap() as int]@)
                == Some(best_value),
            best is Some ==> forall|j: int|
                0 <= j < i && open_entropy(#[trigger] grid.cells()[j]@) is Some ==> best_value
                    <= open_entropy(grid.cells()[j]@).unwrap(),
            best is Some ==> forall|j: int|
                0 <= j < best.unwrap() && open_entropy(#[trigger] grid.cells()[j]@) is Some
                    ==> best_value < open_entropy(grid.cells()[j]@).unwrap(),
    {
        let c = tiles[i].contents();
        assert(grid.cells()[i as int] == *c);
        if !c.tile_set() {
            if let Entropy::Calculated(e) = c.entropy() {
                if best.is_none() || e < best_value {
                    best = Some(i);
                    best_value = e;
                }
            }
        }
    }
    match best {
        Some(i) => {
            let p = tiles[i].pos();
            proof {
                lemma_pos_of_in_bounds(i as int, grid.spec_size());
            }
            Some(p)
        },
        None => None,
    }
}

/// The number of unresolved cells.
pub open spec fn num_unresolved(layer: Seq<Option<TileSpec>>) -> nat
    decreases layer.len(),
{
    if layer.len() == 0 {
        0
    } else {
        num_unresolved(layer.drop_last()) + if layer.last() is None {
            1nat
        } else {
            0nat
        }
    }
}

/// No cell is unresolved exactly when the count is zero, and the count never
/// exceeds the length.
proof fn lemma_num_unresolved_zero(layer: Seq<Option<TileSpec>>)
    ensures
        num_unresolved(layer) <= layer.len(),
        num_unresolved(layer) == 0 <==> forall|i: int| 0 <= i < layer.len() ==> #[trigger] layer[i] is Some,
    decreases layer.len(),
{
    if layer.len() > 0 {
        let init = layer.drop_last();
        lemma_num_unresolved_zero(init);
        if num_unresolved(layer) == 0 {
            assert forall|i: int| 0 <= i < layer.len() implies #[trigger] layer[i] is Some by {
                if i < layer.len() - 1 {
                    assert(init[i] == layer[i]);
                }
            }
        }
        if forall|i: int| 0 <= i < layer.len() ==> #[trigger] layer[i] is Some {
            assert forall|i: int| 0 <= i < init.len() implies #[trigger] init[i] is Some by {
                assert(init[i] == layer[i]);
            }
        }
    }
}

/// Resolving one unresolved cell lowers the count by one.
proof fn lemma_num_unresolved_resolve(layer: Seq<Option<TileSpec>>, k: int, t: TileSpec)
    requires
        0 <= k < layer.len(),
        layer[k] is None,
    ensures
        num_unresolved(layer.update(k, Some(t))) + 1 == num_unresolved(layer),
    decreases layer.len(),
{
    let upd = layer.update(k, Some(t));
    if k == layer.len() - 1 {
        assert(upd.drop_last() =~= layer.drop_last());
    } else {
        assert(upd.drop_last() =~= layer.drop_last().update(k, Some(t)));
        lemma_num_unresolved_resolve(layer.drop_last(), k, t);
    }
}

/// The number of unresolved cells of a subsector.
fn count_empty_tiles(subsector: &Subsector) -> (r: u32)
    requires
        subsector.spec_grid().wf(),
    ensures
        r == num_unresolved(tile_layer(subsector.spec_grid())),
{
    let tiles = subsector.grid().tiles();
    let ghost layer = tile_layer(subsector.spec_grid());
    let mut count: u32 = 0;
    for i in 0..tiles.len()
        invariant
            subsector.spec_grid().wf(),
            tiles@ == subsector.spec_grid().items(),
            layer == tile_layer(subsector.spec_grid()),
            count == num_unresolved(layer.take(i as int)),
            count <= i,
    {
        assert(layer.take(i + 1).drop_last() =~= layer.take(i as int));
        assert(tiles@[i as int].spec_contents() == subsector.spec_grid().cells()[i as int]);
        if tiles[i].contents().static_tile().is_none() {
            count = count + 1;
        }
    }
    assert(layer.take(layer.len() as int) =~= layer);
    count
}

/// Two tiles side by side, `a` on the left, agree on their shared edge; unless
/// `exact`, it is enough that one of them is the fallback tile.
pub open spec fn fits_horizontally(a: TileSpec, b: TileSpec, exact: bool) -> bool {
    a.right == b.left || (!exact && (a == fallback_tile() || b == fallback_tile()))
}

/// Two tiles one above the other, `a` below, agree on their shared edge;
/// unless `exact`, it is enough that one of them is the fallback tile.
pub open spec fn fits_vertically(a: TileSpec, b: TileSpec, exact: bool) -> bool {
    a.up == b.down || (!exact && (a == fallback_tile() || b == fallback_tile()))
}

/// The resolved cell at `p` agrees with its resolved neighbours to the right
/// and above.
pub open spec fn consistent_at(layer: Seq<Option<TileSpec>>, size: UVec2, p: UVec2, exact: bool) -> bool {
    let here = layer[index_of(p, size.x)];
    &&& (here is Some && neighbor_tile(layer, size, p, 1, 0) is Some ==> fits_horizontally(
        here.unwrap(),
        neighbor_tile(layer, size, p, 1, 0).unwrap(),
        exact,
    ))
    &&& (here is Some && neighbor_tile(layer, size, p, 0, 1) is Some ==> fits_vertically(
        here.unwrap(),
        neighbor_tile(layer, size, p, 0, 1).unwrap(),
        exact,
    ))
}

/// Every pair of adjacent resolved cells agrees on its shared edge; unless
/// `exact`, a pair in which one cell holds the fallback tile is let through.
pub open spec fn edges_consistent(layer: Seq<Option<TileSpec>>, size: UVec2, exact: bool) -> bool {
    forall|p: UVec2|
        in_bounds(p, size) && index_of(p, size.x) < layer.len() ==> #[trigger] consistent_at(
            layer,
            size,
            p,
            exact,
        )
}

/// Every resolved cell holds a palette entry.
pub open spec fn from_palette(layer: Seq<Option<TileSpec>>, palette: Seq<TileSpec>) -> bool {
    forall|i: int| 0 <= i < layer.len() && #[trigger] layer[i] is Some ==> palette.contains(layer[i].unwrap())
}

/// The palette never runs into a contradiction: wherever the resolved cells
/// hold palette entries, some entry fits any cell.
pub open spec fn palette_complete(palette: Seq<TileSpec>) -> bool {
    forall|layer: Seq<Option<TileSpec>>, size: UVec2, p: UVec2|
        from_palette(layer, palette) ==> #[trigger] candidates(palette, layer, size, p).len() > 0
}

/// Each of the four edges of `t` carries label `l`.
pub open spec fn labelled(t: TileSpec, l: Seq<char>) -> bool {
    t.down == l && t.left == l && t.up == l && t.right == l
}

/// Every palette entry carries label `l` on all four edges.
pub open spec fn palette_labelled(palette: Seq<TileSpec>, l: Seq<char>) -> bool {
    forall|j: int| 0 <= j < palette.len() ==> labelled(#[trigger] palette[j], l)
}

/// Every resolved cell carries label `l` on all four edges.
pub open spec fn layer_labelled(layer: Seq<Option<TileSpec>>, l: Seq<char>) -> bool {
    forall|i: int| 0 <= i < layer.len() && #[trigger] layer[i] is Some ==> labelled(layer[i].unwrap(), l)
}

/// For in-bounds `q`, `index_of(q)` is `k` exactly when `q` is the coordinate of `k`.
proof fn lemma_index_is(q: UVec2, k: int, size: UVec2)
    requires
        in_bounds(q, size),
        0 <= k < crate::grid::area(size),
    ensures
        (index_of(q, size.x) == k) <==> (q == pos_of(k, size.x)),
{
    lemma_index_round_trip(q, size);
    lemma_pos_of_in_bounds(k, size);
}

/// A chosen tile is a candidate, hence a palette entry that fits, or it is the
/// fallback tile.
proof fn lemma_choice_facts(
    palette: Seq<TileSpec>,
    layer: Seq<Option<TileSpec>>,
    size: UVec2,
    p: UVec2,
    t: TileSpec,
)
    requires
        acceptable_choice(candidates(palette, layer, size, p), t),
    ensures
        t == fallback_tile() || (palette.contains(t) && tile_fits(layer, size, p, t)),
{
    let pred = |u: TileSpec| tile_fits(layer, size, p, u);
    let cs = palette.filter(pred);
    if cs.len() > 0 {
        let j = choose|j: int| 0 <= j < cs.len() && cs[j] == t;
        palette.lemma_filter_pred(pred, j);
        palette.lemma_filter_contains_rev(pred, t);
    }
}

/// Resolving cell `k` to a tile that fits it (or, unless `exact`, to the
/// fallback tile) keeps the edges consistent.
proof fn lemma_consistent_step(layer: Seq<Option<TileSpec>>, size: UVec2, k: int, t: TileSpec, exact: bool)
    requires
        0 <= k < layer.len(),
        layer.len() <= crate::grid::area(size),
        edges_consistent(layer, size, exact),
        (!exact && t == fallback_tile()) || tile_fits(layer, size, pos_of(k, size.x), t),
    ensures
        edges_consistent(layer.update(k, Some(t)), size, exact),
{
    let kp = pos_of(k, size.x);
    let upd = layer.update(k, Some(t));
    lemma_pos_of_in_bounds(k, size);
    // Any stored neighbour other than cell `k` reads the same in both layers.
    assert forall|p: UVec2, dx: int, dy: int|
        #![trigger neighbor_tile(upd, size, p, dx, dy)]
        offset_in(p, dx, dy, size, layer.len()) is Some && offset_in(p, dx, dy, size, layer.len()).unwrap() != kp
            implies neighbor_tile(upd, size, p, dx, dy) == neighbor_tile(layer, size, p, dx, dy) by {
        let q = offset_in(p, dx, dy, size, layer.len()).unwrap();
        lemma_index_is(q, k, size);
    }
    assert forall|p: UVec2|
        in_bounds(p, size) && index_of(p, size.x) < upd.len() implies #[trigger] consistent_at(
        upd,
        size,
        p,
        exact,
    ) by {
        assert(consistent_at(layer, size, p, exact));
        lemma_index_is(p, k, size);
        let r = offset_in(p, 1, 0, size, layer.len());
        let a = offset_in(p, 0, 1, size, layer.len());
        if p == kp {
            if r is Some {
                assert(r.unwrap() != kp);
                assert(offset_in(kp, 1, 0, size, layer.len()) == r);
            }
            if a is Some {
                assert(a.unwrap() != kp);
                assert(offset_in(kp, 0, 1, size, layer.len()) == a);
            }
        } else {
            assert(upd[index_of(p, size.x)] == layer[index_of(p, size.x)]);
            if r is Some && r.unwrap() == kp {
                assert(offset_in(kp, -1, 0, size, layer.len()) == Some(p));
                assert(neighbor_tile(upd, size, p, 1, 0) == Some(t));
            } else if r is Some {
                assert(neighbor_tile(upd, size, p, 1, 0) == neighbor_tile(layer, size, p, 1, 0));
            }
            if a is Some && a.unwrap() == kp {
                assert(offset_in(kp, 0, -1, size, layer.len()) == Some(p));
                assert(neighbor_tile(upd, size, p, 0, 1) == Some(t));
            } else if a is Some {
                assert(neighbor_tile(upd, size, p, 0, 1) == neighbor_tile(layer, size, p, 0, 1));
            }
        }
    }
}

/// Resolving unresolved cell `k` to an acceptable choice keeps the edges
/// consistent, keeps uniformly labelled layers uniformly labelled, and, with a
/// palette that never runs into a contradiction, places a palette entry whose
/// edges agree exactly with its neighbours.
proof fn lemma_resolve_step(
    palette: Seq<TileSpec>,
    layer: Seq<Option<TileSpec>>,
    size: UVec2,
    k: int,
    t: TileSpec,
)
    requires
        0 <= k < layer.len(),
        layer.len() <= crate::grid::area(size),
        acceptable_choice(candidates(palette, layer, size, pos_of(k, size.x)), t),
    ensures
        t == fallback_tile() || palette.contains(t),
        edges_consistent(layer, size, false) ==> edges_consistent(layer.update(k, Some(t)), size, false),
        palette_complete(palette) && from_palette(layer, palette) ==> {
            &&& palette.contains(t)
            &&& from_palette(layer.update(k, Some(t)), palette)
            &&& edges_consistent(layer, size, true) ==> edges_consistent(layer.update(k, Some(t)), size, true)
        },
        forall|l: Seq<char>|
            palette.len() > 0 && palette_labelled(palette, l) && #[trigger] layer_labelled(layer, l)
                ==> layer_labelled(layer.update(k, Some(t)), l) && palette.contains(t),
{
    let kp = pos_of(k, size.x);
    let upd = layer.update(k, Some(t));
    lemma_pos_of_in_bounds(k, size);
    lemma_choice_facts(palette, layer, size, kp, t);
    if edges_consistent(layer, size, false) {
        lemma_consistent_step(layer, size, k, t, false);
    }
    if palette_complete(palette) && from_palette(layer, palette) {
        let pred = |u: TileSpec| tile_fits(layer, size, kp, u);
        let cs = candidates(palette, layer, size, kp);
        assert(cs.len() > 0);
        assert(cs.contains(t));
        palette.lemma_filter_contains_rev(pred, t);
        let j = choose|j: int| 0 <= j < cs.len() && cs[j] == t;
        palette.lemma_filter_pred(pred, j);
        assert forall|i: int| 0 <= i < upd.len() && #[trigger] upd[i] is Some implies palette.contains(
            upd[i].unwrap(),
        ) by {
            if i != k {
                assert(upd[i] == layer[i]);
            }
        }
        if edges_consistent(layer, size, true) {
            lemma_consistent_step(layer, size, k, t, true);
        }
    }
    assert forall|l: Seq<char>|
        palette.len() > 0 && palette_labelled(palette, l) && #[trigger] layer_labelled(layer, l)
            implies layer_labelled(upd, l) && palette.contains(t) by {
        let pred = |u: TileSpec| tile_fits(layer, size, kp, u);
        assert(labelled(palette[0], l));
        assert(tile_fits(layer, size, kp, palette[0]));
        palette.lemma_filter_contains(pred, 0);
        assert(candidates(palette, layer, size, kp).len() > 0);
        assert(candidates(palette, layer, size, kp).contains(t));
        palette.lemma_filter_contains_rev(pred, t);
        let j = choose|j: int| 0 <= j < palette.len() && palette[j] == t;
        assert(labelled(palette[j], l));
        assert forall|i: int| 0 <= i < upd.len() && #[trigger] upd[i] is Some implies labelled(
            upd[i].unwrap(),
            l,
        ) by {
            if i != k {
                assert(upd[i] == layer[i]);
            }
        }
    }
}

/// Cell `k` is the first unresolved cell.
pub open spec fn is_first_unresolved(layer: Seq<Option<TileSpec>>, k: int) -> bool {
    &&& 0 <= k < layer.len()
    &&& layer[k] is None
    &&& forall|j: int| 0 <= j < k ==> #[trigger] layer[j] is Some
}

/// Some unresolved cell comes first.
proof fn lemma_first_unresolved(layer: Seq<Option<TileSpec>>, j: int) -> (k: int)
    requires
        0 <= j < layer.len(),
        layer[j] is None,
    ensures
        is_first_unresolved(layer, k),
    decreases j,
{
    if forall|g: int| 0 <= g < j ==> #[trigger] layer[g] is Some {
        j
    } else {
        let g = choose|g: int| 0 <= g < j && !(#[trigger] layer[g] is Some);
        lemma_first_unresolved(layer, g)
    }
}

/// Starts afresh where no evaluated cell is left: resolves the first
/// unresolved cell as a new seed, then recomputes the entropy of its
/// neighbours. Nothing changes when every cell is resolved.
pub fn calculate_entropy_for_empty_tile(
    grid: &mut Grid<GenTile>,
    static_tiles: &[StaticTileInfo],
    rng: &mut StdRng,
)
    requires
        old(grid).wf(),
        static_tiles@.len() <= u32::MAX,
    ensures
        final(grid).wf(),
        final(grid).spec_size() == old(grid).spec_size(),
        final(grid).cells().len() == old(grid).cells().len(),
        (forall|j: int|
            0 <= j < old(grid).cells().len() ==> #[trigger] tile_layer(*old(grid))[j] is Some)
            ==> *final(grid) == *old(grid),
        forall|k: int|
            #[trigger] is_first_unresolved(tile_layer(*old(grid)), k) ==> {
                let layer = tile_layer(*old(grid));
                let size = old(grid).spec_size();
                let new_layer = tile_layer(*final(grid));
                &&& new_layer[k] is Some
                &&& acceptable_choice(
                    candidates(palette_view(static_tiles@), layer, size, pos_of(k, size.x)),
                    new_layer[k].unwrap(),
                )
                &&& new_layer == layer.update(k, new_layer[k])
                &&& final(grid).cells()[k]@.entropy == Entropy::Settled
                &&& forall|i: int|
                    0 <= i < new_layer.len() && i != k ==> #[trigger] final(grid).cells()[i]@.entropy
                        == refreshed_entropy(
                        new_layer,
                        size,
                        old(grid).cells()[i]@.entropy,
                        palette_view(static_tiles@),
                        pos_of(k, size.x),
                        i,
                    )
            },
{
    let ghost g0 = *grid;
    let ghost layer = tile_layer(*grid);
    let ghost size = grid.spec_size();
    let tiles = grid.tiles();
    let mut k: usize = 0;
    while k < tiles.len() && tiles[k].contents().tile_set()
        invariant
            g0.wf(),
            tiles@ == g0.items(),
            layer == tile_layer(g0),
            k <= tiles@.len(),
            forall|j: int| 0 <= j < k ==> #[trigger] layer[j] is Some,
        decreases tiles@.len() - k,
    {
        assert(tiles@[k as int].spec_contents() == g0.cells()[k as int]);
        k = k + 1;
    }
    if k < tiles.len() {
        assert(tiles@[k as int].spec_contents() == g0.cells()[k as int]);
        assert(is_first_unresolved(layer, k as int));
        let p = tiles[k].pos();
        proof {
            lemma_pos_of_in_bounds(k as int, size);
        }
        select_tile(grid, p, static_tiles, rng);
        let ghost g1 = *grid;
        proof {
            assert(tile_layer(g1) =~= layer.update(k as int, tile_layer(g1)[k as int]));
        }
        calculate_entropy(grid, p, static_tiles);
        proof {
            assert forall|kk: int| #[trigger] is_first_unresolved(layer, kk) implies kk == k by {
                if kk < k {
                    assert(layer[kk] is Some);
                } else if kk > k {
                    assert(layer[k as int] is Some);
                }
            }
            assert forall|i: int|
                0 <= i < tile_layer(*grid).len() && i != k implies #[trigger] grid.cells()[i]@.entropy
                    == refreshed_entropy(
                    tile_layer(*grid),
                    size,
                    g0.cells()[i]@.entropy,
                    palette_view(static_tiles@),
                    pos_of(k as int, size.x),
                    i,
                ) by {
                assert(g1.cells()[i] == g0.cells()[i]);
            }
            assert(layer[k as int] is None);
        }
    } else {
        proof {
            assert forall|kk: int| !#[trigger] is_first_unresolved(layer, kk) by {
                if 0 <= kk < layer.len() {
                    assert(layer[kk] is Some);
                }
            }
        }
    }
}

/// Generates a subsector: until every cell is resolved, resolves the
/// unresolved cell of lowest calculated entropy (or, when none has one, the
/// first unresolved cell) and recomputes the entropy of its neighbours.
///
/// Cells resolved beforehand keep their tiles; every other cell ends with a
/// palette entry or the fallback tile; adjacent cells agree on their shared
/// edges unless one holds the fallback tile, provided the cells resolved
/// beforehand did; a palette whose entries all carry one label on every edge,
/// around resolved cells that carry it too, never needs the fallback; and a
/// palette that never runs into a contradiction, around resolved cells that
/// hold its entries, never needs the fallback and keeps every shared edge in
/// exact agreement.
pub fn generate_subsector(subsector: &mut Subsector, static_tiles: &[StaticTileInfo], rng: &mut StdRng)
    requires
        old(subsector).spec_grid().wf(),
        static_tiles@.len() <= u32::MAX,
    ensures
        final(subsector).spec_stage() == old(subsector).spec_stage(),
        final(subsector).spec_grid().wf(),
        final(subsector).spec_grid().spec_size() == old(subsector).spec_grid().spec_size(),
        final(subsector).spec_grid().cells().len() == old(subsector).spec_grid().cells().len(),
        ({
            let before = tile_layer(old(subsector).spec_grid());
            let after = tile_layer(final(subsector).spec_grid());
            let size = old(subsector).spec_grid().spec_size();
            let palette = palette_view(static_tiles@);
            &&& forall|i: int| 0 <= i < after.len() ==> #[trigger] after[i] is Some
            &&& forall|i: int| 0 <= i < after.len() && #[trigger] before[i] is Some ==> after[i] == before[i]
            &&& forall|i: int|
                0 <= i < after.len() && #[trigger] before[i] is None ==> after[i] == Some(fallback_tile())
                    || palette.contains(after[i].unwrap())
            &&& edges_consistent(before, size, false) ==> edges_consistent(after, size, false)
            &&& forall|l: Seq<char>|
                palette.len() > 0 && palette_labelled(palette, l) && #[trigger] layer_labelled(before, l)
                    ==> forall|i: int|
                    0 <= i < after.len() && #[trigger] before[i] is None ==> palette.contains(after[i].unwrap())
            &&& palette_complete(palette) && from_palette(before, palette) ==> {
                &&& forall|i: int| 0 <= i < after.len() ==> palette.contains(#[trigger] after[i].unwrap())
                &&& edges_consistent(before, size, true) ==> edges_consistent(after, size, true)
            }
        }),
{
    let ghost before = tile_layer(subsector.spec_grid());
    let ghost size = subsector.spec_grid().spec_size();
    let ghost len = subsector.spec_grid().cells().len();
    let ghost palette = palette_view(static_tiles@);
    let ghost stage = subsector.spec_stage();
    while count_empty_tiles(subsector) > 0
        invariant
            subsector.spec_grid().wf(),
            subsector.spec_stage() == stage,
            static_tiles@.len() <= u32::MAX,
            palette == palette_view(static_tiles@),
            subsector.spec_grid().spec_size() == size,
            subsector.spec_grid().cells().len() == len,
            before.len() == len,
            len <= crate::grid::area(size),
            ({
                let now = tile_layer(subsector.spec_grid());
                &&& forall|i: int| 0 <= i < len && #[trigger] before[i] is Some ==> now[i] == before[i]
                &&& forall|i: int|
                    0 <= i < len && #[trigger] before[i] is None && now[i] is Some ==> now[i] == Some(
                        fallback_tile(),
                    ) || palette.contains(now[i].unwrap())
                &&& edges_consistent(before, size, false) ==> edges_consistent(now, size, false)
                &&& palette_complete(palette) && from_palette(before, palette) ==> {
                    &&& from_palette(now, palette)
                    &&& edges_consistent(before, size, true) ==> edges_consistent(now, size, true)
                }
                &&& forall|l: Seq<char>|
                    palette.len() > 0 && palette_labelled(palette, l) && #[trigger] layer_labelled(before, l)
                        ==> layer_labelled(now, l) && forall|i: int|
                        0 <= i < len && #[trigger] before[i] is None && now[i] is Some ==> palette.contains(
                            now[i].unwrap(),
                        )
            }),
        decreases num_unresolved(tile_layer(subsector.spec_grid())),
    {
        let ghost now = tile_layer(subsector.spec_grid());
        let ghost k: int;
        let ghost t: TileSpec;
        if let Some(sel_tile) = min_entropy(subsector.grid()) {
            proof {
                k = index_of(sel_tile, size.x);
                lemma_index_round_trip(sel_tile, size);
            }
            select_tile(subsector.grid_mut(), sel_tile, static_tiles, rng);
            proof {
                t = tile_layer(subsector.spec_grid())[k].unwrap();
                assert(tile_layer(subsector.spec_grid()) =~= now.update(k, Some(t)));
            }
            calculate_entropy(subsector.grid_mut(), sel_tile, static_tiles);
        } else {
            proof {
                lemma_num_unresolved_zero(now);
                let j = choose|j: int| 0 <= j < now.len() && !(#[trigger] now[j] is Some);
                k = lemma_first_unresolved(now, j);
            }
            calculate_entropy_for_empty_tile(subsector.grid_mut(), static_tiles, rng);
            proof {
                t = tile_layer(subsector.spec_grid())[k].unwrap();
            }
        }
        proof {
            let after = tile_layer(subsector.spec_grid());
            assert(after == now.update(k, Some(t)));
            lemma_num_unresolved_resolve(now, k, t);
            lemma_resolve_step(palette, now, size, k, t);
        }
    }
    proof {
        let after = tile_layer(subsector.spec_grid());
        lemma_num_unresolved_zero(after);
        if palette_complete(palette) && from_palette(before, palette) {
            assert forall|i: int| 0 <= i < after.len() implies palette.contains(#[trigger] after[i].unwrap()) by {
                assert(after[i] is Some);
            }
        }
    }
}

/// A finished subsector: every cell is stored and resolved to a palette entry
/// or the fallback tile, adjacent cells agree on their shared edges unless one
/// holds the fallback tile, a palette whose entries all carry one label on
/// every edge left no fallback tile, and a palette that never runs into a
/// contradiction left no fallback tile and no mismatched edge.
pub open spec fn generated(g: Grid<GenTile>, palette: Seq<TileSpec>) -> bool {
    let layer = tile_layer(g);
    &&& g.wf()
    &&& g.is_full()
    &&& forall|i: int|
        0 <= i < layer.len() ==> #[trigger] layer[i] is Some && (layer[i] == Some(fallback_tile())
            || palette.contains(layer[i].unwrap()))
    &&& edges_consistent(layer, g.spec_size(), false)
    &&& forall|l: Seq<char>|
        palette.len() > 0 && #[trigger] palette_labelled(palette, l) ==> forall|i: int|
            0 <= i < layer.len() ==> palette.contains(#[trigger] layer[i].unwrap())
    &&& palette_complete(palette) ==> {
        &&& forall|i: int| 0 <= i < layer.len() ==> palette.contains(#[trigger] layer[i].unwrap())
        &&& edges_consistent(layer, g.spec_size(), true)
    }
}

/// The pass in which subsectors of a stage are generated.
pub open spec fn stage_pass(stage: GenerationStage) -> u8 {
    match stage {
        GenerationStage::Primary => 0,
        GenerationStage::SecondaryHorizontal => 1,
        GenerationStage::SecondaryVertical => 1,
        GenerationStage::Tertiary => 2,
    }
}

fn pass_of(stage: &GenerationStage) -> (r: u8)
    ensures
        r == stage_pass(*stage),
{
    match stage {
        GenerationStage::Primary => 0,
        GenerationStage::SecondaryHorizontal => 1,
        GenerationStage::SecondaryVertical => 1,
        GenerationStage::Tertiary => 2,
    }
}

/// A layer with a single resolved cell has consistent edges.
proof fn lemma_single_resolved_consistent(layer: Seq<Option<TileSpec>>, size: UVec2, exact: bool)
    requires
        layer.len() <= crate::grid::area(size),
        forall|i: int| 0 < i < layer.len() ==> #[trigger] layer[i] is None,
    ensures
        edges_consistent(layer, size, exact),
{
    assert forall|p: UVec2|
        in_bounds(p, size) && index_of(p, size.x) < layer.len() implies #[trigger] consistent_at(
        layer,
        size,
        p,
        exact,
    ) by {
        let r = offset_in(p, 1, 0, size, layer.len());
        let a = offset_in(p, 0, 1, size, layer.len());
        if r is Some {
            assert(index_of(r.unwrap(), size.x) == index_of(p, size.x) + 1);
        }
        if a is Some {
            let q = a.unwrap();
            assert(index_of(q, size.x) == index_of(p, size.x) + size.x) by (nonlinear_arith)
                requires
                    q.y == p.y + 1,
                    q.x == p.x,
            ;
        }
    }
}

/// Empties the subsector, seeds its cell `(0, 0)` with a random palette entry
/// (and, when `seed_entropy` holds, evaluates the seed's neighbours), then
/// generates it.
fn generate_seeded(
    subsector: &mut Subsector,
    static_tiles: &[StaticTileInfo],
    rng: &mut StdRng,
    seed_entropy: bool,
)
    requires
        crate::grid::area(old(subsector).spec_grid().spec_size()) <= u32::MAX,
        static_tiles@.len() > 0,
        static_tiles@.len() <= u32::MAX,
    ensures
        final(subsector).spec_stage() == old(subsector).spec_stage(),
        final(subsector).spec_grid().spec_size() == old(subsector).spec_grid().spec_size(),
        generated(final(subsector).spec_grid(), palette_view(static_tiles@)),
{
    let ghost palette = palette_view(static_tiles@);
    let ghost size = subsector.spec_grid().spec_size();
    let empty = GenTile::empty();
    let ghost e = empty;
    subsector.grid_mut().fill(empty);
    proof {
        let g = subsector.spec_grid();
        assert forall|i: int| 0 <= i < g.cells().len() implies #[trigger] g.cells()[i]@ == (
        GenTileView { tile: None, entropy: Entropy::Uncalculated }) by {
            assert(cloned(e, g.cells()[i]));
        }
    }
    let initial_tile = choose_tile(static_tiles, rng);
    let ghost seed = initial_tile@;
    let ghost g0 = subsector.spec_grid();
    let origin = UVec2::new(0, 0);
    if let Some(t) = subsector.grid_mut().tile_mut(origin) {
        *t.contents_mut() = GenTile::new(initial_tile);
    }
    proof {
        let g = subsector.spec_grid();
        assert(g.wf());
        let layer = tile_layer(g);
        assert forall|i: int| 0 < i < layer.len() implies #[trigger] layer[i] is None by {
            assert(g.cells()[i] == g0.cells()[i]);
        }
        lemma_single_resolved_consistent(layer, size, false);
        lemma_single_resolved_consistent(layer, size, true);
        if layer.len() > 0 {
            assert(size.x > 0 && size.y > 0) by (nonlinear_arith)
                requires
                    layer.len() > 0,
                    layer.len() == (size.x as nat) * (size.y as nat),
            ;
            assert(g0.stored_at(origin));
            assert(index_of(origin, size.x) == 0);
            assert(layer[0] == Some(seed));
        }
    }
    if seed_entropy {
        calculate_entropy(subsector.grid_mut(), origin, static_tiles);
    }
    let ghost before = tile_layer(subsector.spec_grid());
    proof {
        if before.len() > 0 {
            assert(palette.contains(before[0].unwrap()));
        }
        assert forall|l: Seq<char>| #[trigger] palette_labelled(palette, l) implies layer_labelled(before, l) by {
            if before.len() > 0 {
                let j = choose|j: int| 0 <= j < palette.len() && palette[j] == before[0].unwrap();
                assert(labelled(palette[j], l));
            }
        }
    }
    proof {
        assert(edges_consistent(before, size, false));
        assert(edges_consistent(before, size, true));
        assert forall|i: int| 0 <= i < before.len() && #[trigger] before[i] is Some implies palette.contains(
            before[i].unwrap(),
        ) by {
            assert(i == 0);
        }
        assert(subsector.spec_grid().is_full());
    }
    generate_subsector(subsector, static_tiles, rng);
    proof {
        let after = tile_layer(subsector.spec_grid());
        assert(subsector.spec_grid().is_full());
        assert(edges_consistent(after, size, false));
        assert forall|i: int| 0 <= i < after.len() implies #[trigger] after[i] is Some && (after[i] == Some(fallback_tile())
            || palette.contains(after[i].unwrap())) by {
            if before[i] is Some {
                assert(i == 0);
            }
        }
        assert forall|l: Seq<char>| palette.len() > 0 && #[trigger] palette_labelled(palette, l) implies forall|i: int|
            0 <= i < after.len() ==> palette.contains(#[trigger] after[i].unwrap()) by {
            assert(layer_labelled(before, l));
            assert forall|i: int| 0 <= i < after.len() implies palette.contains(#[trigger] after[i].unwrap()) by {
                if before[i] is Some {
                    assert(i == 0);
                }
            }
        }
    }
}

/// Every subsector's grid has an area that fits in a `u32`.
pub open spec fn meta_grid_sized(meta_grid: Grid<Subsector>) -> bool {
    &&& meta_grid.wf()
    &&& forall|i: int|
        0 <= i < meta_grid.cells().len() ==> crate::grid::area(
            #[trigger] meta_grid.cells()[i].spec_grid().spec_size(),
        ) <= u32::MAX
}

/// What one pass leaves: subsectors of the pass are generated, the others are
/// untouched; stages and sizes are kept.
pub open spec fn pass_done(
    before: Grid<Subsector>,
    after: Grid<Subsector>,
    palette: Seq<TileSpec>,
    pass: u8,
) -> bool {
    &&& after.wf()
    &&& after.spec_size() == before.spec_size()
    &&& after.cells().len() == before.cells().len()
    &&& forall|i: int|
        0 <= i < after.cells().len() ==> {
            let b = #[trigger] before.cells()[i];
            let a = after.cells()[i];
            &&& a.spec_stage() == b.spec_stage()
            &&& a.spec_grid().spec_size() == b.spec_grid().spec_size()
            &&& stage_pass(b.spec_stage()) == pass ==> generated(a.spec_grid(), palette)
            &&& stage_pass(b.spec_stage()) != pass ==> a == b
        }
}

/// Generates, in storage order, every subsector whose stage belongs to `pass`.
fn generate_pass(
    meta_grid: &mut Grid<Subsector>,
    static_tiles: &[StaticTileInfo],
    rng: &mut StdRng,
    pass: u8,
)
    requires
        meta_grid_sized(*old(meta_grid)),
        static_tiles@.len() > 0,
        static_tiles@.len() <= u32::MAX,
    ensures
        meta_grid_sized(*final(meta_grid)),
        pass_done(*old(meta_grid), *final(meta_grid), palette_view(static_tiles@), pass),
{
    let ghost m0 = *meta_grid;
    let ghost palette = palette_view(static_tiles@);
    let n = meta_grid.tiles().len();
    for i in 0..n
        invariant
            meta_grid_sized(m0),
            meta_grid_sized(*meta_grid),
            n == m0.cells().len(),
            static_tiles@.len() > 0,
            static_tiles@.len() <= u32::MAX,
            palette == palette_view(static_tiles@),
            meta_grid.wf(),
            meta_grid.spec_size() == m0.spec_size(),
            meta_grid.cells().len() == n,
            forall|j: int| 0 <= j < n ==> #[trigger] meta_grid.items()[j].spec_pos() == m0.items()[j].spec_pos(),
            forall|j: int|
                0 <= j < n ==> {
                    let b = #[trigger] m0.cells()[j];
                    let a = meta_grid.cells()[j];
                    &&& a.spec_stage() == b.spec_stage()
                    &&& a.spec_grid().spec_size() == b.spec_grid().spec_size()
                    &&& (j < i && stage_pass(b.spec_stage()) == pass) ==> generated(a.spec_grid(), palette)
                    &&& (j >= i || stage_pass(b.spec_stage()) != pass) ==> a == b
                },
    {
        let p = meta_grid.tiles()[i].pos();
        let ghost before = *meta_grid;
        proof {
            assert(p == pos_of(i as int, meta_grid.spec_size().x));
            lemma_pos_of_in_bounds(i as int, meta_grid.spec_size());
            assert(meta_grid.cells()[i as int] == meta_grid.items()[i as int].spec_contents());
        }
        if let Some(item) = meta_grid.tile_mut(p) {
            let subsector = item.contents_mut();
            if pass_of(subsector.generation_stage()) == pass {
                generate_seeded(subsector, static_tiles, rng, pass == 1);
            }
        }
        proof {
            assert forall|j: int| 0 <= j < n && j != i implies #[trigger] meta_grid.items()[j] == before.items()[j] by {}
            assert(meta_grid.cells()[i as int] == meta_grid.items()[i as int].spec_contents());
            assert forall|j: int| 0 <= j < n implies crate::grid::area(
                #[trigger] meta_grid.cells()[j].spec_grid().spec_size(),
            ) <= u32::MAX by {
                assert(before.cells()[j] == before.items()[j].spec_contents());
                assert(meta_grid.cells()[j] == meta_grid.items()[j].spec_contents());
                if j != i {
                    assert(meta_grid.items()[j] == before.items()[j]);
                }
            }
        }
    }
}

/// Generates every primary subsector of the meta grid.
pub fn generate_primary_sectors(meta_grid: &mut Grid<Subsector>, static_tiles: &[StaticTileInfo], rng: &mut StdRng)
    requires
        meta_grid_sized(*old(meta_grid)),
        static_tiles@.len() > 0,
        static_tiles@.len() <= u32::MAX,
    ensures
        meta_grid_sized(*final(meta_grid)),
        pass_done(*old(meta_grid), *final(meta_grid), palette_view(static_tiles@), 0),
{
    generate_pass(meta_grid, static_tiles, rng, 0);
}

/// Generates every secondary subsector of the meta grid, horizontal and
/// vertical alike.
pub fn generate_secondary_sectors(meta_grid: &mut Grid<Subsector>, static_tiles: &[StaticTileInfo], rng: &mut StdRng)
    requires
        meta_grid_sized(*old(meta_grid)),
        static_tiles@.len() > 0,
        static_tiles@.len() <= u32::MAX,
    ensures
        meta_grid_sized(*final(meta_grid)),
        pass_done(*old(meta_grid), *final(meta_grid), palette_view(static_tiles@), 1),
{
    generate_pass(meta_grid, static_tiles, rng, 1);
}

/// Generates every tertiary subsector of the meta grid.
pub fn generate_tertiary_sectors(meta_grid: &mut Grid<Subsector>, static_tiles: &[StaticTileInfo], rng: &mut StdRng)
    requires
        meta_grid_sized(*old(meta_grid)),
        static_tiles@.len() > 0,
        static_tiles@.len() <= u32::MAX,
    ensures
        meta_grid_sized(*final(meta_grid)),
        pass_done(*old(meta_grid), *final(meta_grid), palette_view(static_tiles@), 2),
{
    generate_pass(meta_grid, static_tiles, rng, 2);
}

} // verus!
