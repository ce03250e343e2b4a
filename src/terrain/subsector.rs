//! Partitioning of a map into subsectors, and stitching of generated
//! subsectors back into one sector.
//!
//! Along each axis the map is cut into chunks that alternate long and short,
//! starting and ending with a long one: chunk `k` is long when `k` is even.
use vstd::prelude::*;

use crate::grid::{area, index_of, lemma_index_round_trip, pos_of, Grid, GridItem, UVec2};
use crate::sector::{Sector, Tile};

use super::generate::{meta_grid_sized, FALLBACK_X, FALLBACK_Y};
use super::structs::{GenTile, GenerationStage, Subsector, TileSpec};
use super::{LONG_LENGTH, SHORT_LENGTH};

verus! {

/// Length of one long chunk followed by one short chunk.
pub open spec fn period() -> nat {
    (LONG_LENGTH + SHORT_LENGTH) as nat
}

/// Number of chunks along an axis of `n` tiles: `2 * ceil(max(n, 1) / period) - 1`.
pub open spec fn meta_count(n: u32) -> nat {
    let m = if n == 0 { 1nat } else { n as nat };
    (2 * ((m + period() - 1) / period() as int) - 1) as nat
}

/// Length of chunk `k`.
pub open spec fn chunk_len(k: nat) -> nat {
    if k % 2 == 0 {
        LONG_LENGTH as nat
    } else {
        SHORT_LENGTH as nat
    }
}

/// First tile of chunk `k`.
pub open spec fn chunk_start(k: nat) -> nat {
    (k / 2) * period() + if k % 2 == 1 {
        LONG_LENGTH as nat
    } else {
        0nat
    }
}

/// Number of tiles that the chunks of an axis of `n` tiles span.
pub open spec fn span(n: u32) -> nat {
    let k = meta_count(n);
    chunk_start((k - 1) as nat) + chunk_len((k - 1) as nat)
}

/// The chunk holding tile `c`.
pub open spec fn chunk_index(c: u32) -> nat {
    2 * (c as nat / period()) + if c as nat % period() >= LONG_LENGTH {
        1nat
    } else {
        0nat
    }
}

/// The offset of tile `c` within its chunk.
pub open spec fn chunk_offset(c: u32) -> nat {
    let r = c as nat % period();
    if r >= LONG_LENGTH {
        (r - LONG_LENGTH) as nat
    } else {
        r
    }
}

/// The number of subsectors along an axis of `size` tiles.
pub fn meta_size(size: u32) -> (r: u32)
    ensures
        r == meta_count(size),
{
    let size = if size == 0 {
        1
    } else {
        size
    };
    let p = LONG_LENGTH + SHORT_LENGTH;
    let chunks = size / p + if size % p != 0 {
        1
    } else {
        0
    };
    proof {
        let m = size as int;
        let q = p as int;
        vstd::arithmetic::div_mod::lemma_fundamental_div_mod(m, q);
        vstd::arithmetic::div_mod::lemma_fundamental_div_mod(m + q - 1, q);
        assert((m + q - 1) / q == m / q + if m % q != 0 { 1int } else { 0int }) by {
            vstd::arithmetic::div_mod::lemma_fundamental_div_mod_converse(
                m + q - 1,
                q,
                m / q + if m % q != 0 { 1int } else { 0int },
                if m % q != 0 { m % q - 1 } else { q - 1 },
            );
        }
    }
    2 * chunks - 1
}

/// The index of the subsector holding tile `position` along one axis.
pub fn meta_index(position: u32) -> (r: u32)
    ensures
        r == chunk_index(position),
{
    let p = LONG_LENGTH + SHORT_LENGTH;
    2 * (position / p) + if position % p >= LONG_LENGTH {
        1
    } else {
        0
    }
}

/// The offset of tile `position` within its subsector along one axis.
pub fn position_within_sector(position: u32) -> (r: u32)
    ensures
        r == chunk_offset(position),
{
    let r = position % (LONG_LENGTH + SHORT_LENGTH);
    if r >= LONG_LENGTH {
        r - LONG_LENGTH
    } else {
        r
    }
}

/// The tile `c` lies in exactly one chunk: its offset fits that chunk, the
/// chunk's start plus the offset gives `c` back, and no other chunk spans `c`. The chunk exists among the `meta_count(n)` chunks of an axis of `n`
/// tiles when `c` lies within their span, and the span covers the whole axis
/// unless `n` leaves a remainder of zero or of more than a long chunk's length
/// after whole periods.
pub proof fn lemma_partition_round_trip(c: u32, n: u32)
    ensures
        chunk_offset(c) < chunk_len(chunk_index(c)),
        chunk_start(chunk_index(c)) + chunk_offset(c) == c,
        forall|k: nat|
            #[trigger] chunk_start(k) <= c < chunk_start(k) + chunk_len(k) ==> k == chunk_index(c),
        c < span(n) ==> chunk_index(c) < meta_count(n),
        1 <= n as nat % period() <= LONG_LENGTH ==> n <= span(n),
{
    let p = period() as int;
    let ci = c as int;
    vstd::arithmetic::div_mod::lemma_fundamental_div_mod(ci, p);
    assert forall|k: nat|
        #[trigger] chunk_start(k) <= c < chunk_start(k) + chunk_len(k) implies k == chunk_index(c) by {
        let l = c - chunk_start(k);
        let q = (k / 2) as int;
        let rem = if k % 2 == 1 { LONG_LENGTH as int + l } else { l as int };
        assert(ci == q * p + rem);
        vstd::arithmetic::div_mod::lemma_fundamental_div_mod_converse(ci, p, q, rem);
    }
    let m = if n == 0 { 1int } else { n as int };
    vstd::arithmetic::div_mod::lemma_fundamental_div_mod(m, p);
    vstd::arithmetic::div_mod::lemma_fundamental_div_mod(m + p - 1, p);
    let chunks = (m + p - 1) / p;
    assert(chunks == m / p + if m % p != 0 { 1int } else { 0int }) by {
        vstd::arithmetic::div_mod::lemma_fundamental_div_mod_converse(
            m + p - 1,
            p,
            m / p + if m % p != 0 { 1int } else { 0int },
            if m % p != 0 { m % p - 1 } else { p - 1 },
        );
    }
    assert(chunks >= 1);
    assert(meta_count(n) == 2 * chunks - 1);
    let last = (2 * chunks - 2) as nat;
    assert(last / 2 == chunks - 1);
    assert(last % 2 == 0);
    assert(span(n) == (chunks - 1) * p + LONG_LENGTH);
    if c < span(n) {
        assert(ci < (chunks - 1) * p + LONG_LENGTH);
        assert(ci / p <= chunks - 1) by {
            vstd::arithmetic::div_mod::lemma_div_is_ordered(ci, (chunks - 1) * p + LONG_LENGTH - 1, p);
            vstd::arithmetic::div_mod::lemma_fundamental_div_mod_converse(
                (chunks - 1) * p + LONG_LENGTH - 1,
                p,
                chunks - 1,
                LONG_LENGTH - 1,
            );
        }
        if ci / p == chunks - 1 {
            assert(ci % p < LONG_LENGTH);
        }
    }
    if 1 <= n as nat % period() <= LONG_LENGTH {
        assert(m == n);
        assert(m % p != 0);
    }
}

/// The stage of the subsector at meta coordinate `(x, y)`: long along both
/// axes is primary, long along one axis is secondary (named by the long axis),
/// short along both is tertiary.
pub open spec fn stage_of(x: u32, y: u32) -> GenerationStage {
    if x % 2 == 0 && y % 2 == 0 {
        GenerationStage::Primary
    } else if x % 2 == 0 {
        GenerationStage::SecondaryHorizontal
    } else if y % 2 == 0 {
        GenerationStage::SecondaryVertical
    } else {
        GenerationStage::Tertiary
    }
}

/// The chunk lengths `(width, height)` of a subsector of the given stage.
pub open spec fn sides_of(stage: GenerationStage) -> (u32, u32) {
    match stage {
        GenerationStage::Primary => (LONG_LENGTH, LONG_LENGTH),
        GenerationStage::SecondaryHorizontal => (LONG_LENGTH, SHORT_LENGTH),
        GenerationStage::SecondaryVertical => (SHORT_LENGTH, LONG_LENGTH),
        GenerationStage::Tertiary => (SHORT_LENGTH, SHORT_LENGTH),
    }
}

/// The allocated size of a subsector of the given stage: its chunk lengths,
/// two tiles longer along each short axis to leave room for blending.
pub open spec fn allocated_size(stage: GenerationStage) -> UVec2 {
    let (w, h) = sides_of(stage);
    match stage {
        GenerationStage::Primary => UVec2 { x: w, y: h },
        GenerationStage::SecondaryHorizontal => UVec2 { x: w, y: (h + 2) as u32 },
        GenerationStage::SecondaryVertical => UVec2 { x: (w + 2) as u32, y: h },
        GenerationStage::Tertiary => UVec2 { x: (w + 2) as u32, y: (h + 2) as u32 },
    }
}

/// The generation stage of the subsector at meta coordinate `(x, y)`.
pub fn generation_stage(x: u32, y: u32) -> (r: GenerationStage)
    ensures
        r == stage_of(x, y),
{
    match (x % 2 == 0, y % 2 == 0) {
        (true, true) => GenerationStage::Primary,
        (true, false) => GenerationStage::SecondaryHorizontal,
        (false, true) => GenerationStage::SecondaryVertical,
        (false, false) => GenerationStage::Tertiary,
    }
}

/// The chunk lengths `(width, height)` of a subsector of the given stage.
pub fn side_lengths(generation_stage: GenerationStage) -> (r: (u32, u32))
    ensures
        r == sides_of(generation_stage),
{
    match generation_stage {
        GenerationStage::Primary => (LONG_LENGTH, LONG_LENGTH),
        GenerationStage::SecondaryHorizontal => (LONG_LENGTH, SHORT_LENGTH),
        GenerationStage::SecondaryVertical => (SHORT_LENGTH, LONG_LENGTH),
        GenerationStage::Tertiary => (SHORT_LENGTH, SHORT_LENGTH),
    }
}

/// Widens `(width, height)` by two along each axis on which a subsector of the
/// given stage is short.
pub fn adjust_lengths(stage: GenerationStage, width: u32, height: u32) -> (r: (u32, u32))
    requires
        stage == GenerationStage::SecondaryVertical || stage == GenerationStage::Tertiary ==> width
            <= u32::MAX - 2,
        stage == GenerationStage::SecondaryHorizontal || stage == GenerationStage::Tertiary ==> height
            <= u32::MAX - 2,
    ensures
        r == (match stage {
            GenerationStage::Primary => (width, height),
            GenerationStage::SecondaryHorizontal => (width, (height + 2) as u32),
            GenerationStage::SecondaryVertical => ((width + 2) as u32, height),
            GenerationStage::Tertiary => ((width + 2) as u32, (height + 2) as u32),
        }),
{
    match stage {
        GenerationStage::Primary => (width, height),
        GenerationStage::SecondaryHorizontal => (width, height + 2),
        GenerationStage::SecondaryVertical => (width + 2, height),
        GenerationStage::Tertiary => (width + 2, height + 2),
    }
}

/// The meta grid of a map of the given size: one empty subsector per chunk
/// pair, with the stage and allocated size its meta coordinate gives it.
pub fn subsectors(size: UVec2) -> (r: Grid<Subsector>)
    requires
        meta_count(size.x) * meta_count(size.y) <= u32::MAX,
    ensures
        meta_grid_sized(r),
        r.is_full(),
        r.spec_size() == (UVec2 { x: meta_count(size.x) as u32, y: meta_count(size.y) as u32 }),
        forall|i: int|
            0 <= i < r.cells().len() ==> {
                let p = pos_of(i, r.spec_size().x);
                let s = #[trigger] r.cells()[i];
                &&& s.spec_stage() == stage_of(p.x, p.y)
                &&& s.spec_grid().spec_size() == allocated_size(s.spec_stage())
                &&& s.spec_grid().wf()
                &&& s.spec_grid().items().len() == 0
            },
{
    let meta_size = UVec2::new(meta_size(size.x), meta_size(size.y));
    let mut meta_grid = Grid::<Subsector>::new(meta_size);
    let ghost w = meta_size.x as int;
    assert(0 * w == 0);
    let height = meta_grid.height();
    let width = meta_grid.width();
    for y in 0..height
        invariant
            height == meta_size.y,
            width == meta_size.x,
            w == meta_size.x as int,
            meta_grid.wf(),
            meta_grid.spec_size() == meta_size,
            meta_grid.items().len() == (y as int) * w,
            forall|i: int|
                0 <= i < meta_grid.cells().len() ==> {
                    let p = pos_of(i, meta_size.x);
                    let s = #[trigger] meta_grid.cells()[i];
                    &&& s.spec_stage() == stage_of(p.x, p.y)
                    &&& s.spec_grid().spec_size() == allocated_size(s.spec_stage())
                    &&& s.spec_grid().wf()
                    &&& s.spec_grid().items().len() == 0
                },
    {
        for x in 0..width
            invariant
                height == meta_size.y,
                width == meta_size.x,
                w == meta_size.x as int,
                meta_grid.wf(),
                meta_grid.spec_size() == meta_size,
                y < meta_size.y,
                meta_grid.items().len() == (y as int) * w + (x as int),
                forall|i: int|
                    0 <= i < meta_grid.cells().len() ==> {
                        let p = pos_of(i, meta_size.x);
                        let s = #[trigger] meta_grid.cells()[i];
                        &&& s.spec_stage() == stage_of(p.x, p.y)
                        &&& s.spec_grid().spec_size() == allocated_size(s.spec_stage())
                        &&& s.spec_grid().wf()
                        &&& s.spec_grid().items().len() == 0
                    },
        {
            let stage = generation_stage(x, y);
            let (side_width, side_height) = side_lengths(stage);
            let (adjusted_width, adjusted_height) = adjust_lengths(stage, side_width, side_height);
            assert(adjusted_width <= 10 && adjusted_height <= 10);
            assert(area(UVec2 { x: adjusted_width, y: adjusted_height }) <= 100) by (nonlinear_arith)
                requires
                    adjusted_width <= 10,
                    adjusted_height <= 10,
            ;
            let subsector = Subsector::new(
                stage,
                Grid::<GenTile>::new(UVec2::new(adjusted_width, adjusted_height)),
            );
            let p = UVec2::new(x, y);
            proof {
                lemma_index_round_trip(p, meta_size);
                assert(index_of(p, meta_size.x) == (y as int) * w + (x as int));
            }
            let ghost before = meta_grid;
            meta_grid.push(GridItem::new(p, subsector));
            proof {
                assert forall|i: int| 0 <= i < meta_grid.cells().len() implies {
                    let p = pos_of(i, meta_size.x);
                    let s = #[trigger] meta_grid.cells()[i];
                    &&& s.spec_stage() == stage_of(p.x, p.y)
                    &&& s.spec_grid().spec_size() == allocated_size(s.spec_stage())
                    &&& s.spec_grid().wf()
                    &&& s.spec_grid().items().len() == 0
                } by {
                    if i < before.cells().len() {
                        assert(meta_grid.cells()[i] == before.cells()[i]);
                    }
                }
            }
        }
        assert((y as int) * w + w == (y as int + 1) * w) by (nonlinear_arith);
    }
    proof {
        assert(meta_grid.items().len() == area(meta_size)) by (nonlinear_arith)
            requires
                meta_grid.items().len() == (meta_size.y as int) * w,
                w == meta_size.x,
        ;
        assert forall|i: int|
            0 <= i < meta_grid.cells().len() implies area(
            #[trigger] meta_grid.cells()[i].spec_grid().spec_size(),
        ) <= u32::MAX by {}
    }
    meta_grid
}

/// Atlas column of the tile placed where a coordinate's subsector or cell
/// cannot be found.
pub const LOOKUP_ERROR_X: u32 = 21;

/// Atlas row of the tile placed where a coordinate's subsector or cell cannot
/// be found.
pub const LOOKUP_ERROR_Y: u32 = 5;

/// The subsector holding a map coordinate, and the coordinate within it.
pub open spec fn spec_tile_position(pos: UVec2) -> (UVec2, UVec2) {
    (
        UVec2 { x: chunk_index(pos.x) as u32, y: chunk_index(pos.y) as u32 },
        UVec2 { x: chunk_offset(pos.x) as u32, y: chunk_offset(pos.y) as u32 },
    )
}

/// The atlas coordinate of a palette entry.
pub open spec fn atlas_of(t: TileSpec) -> UVec2 {
    UVec2 { x: t.x as u32, y: t.y as u32 }
}

/// The atlas coordinate of the fallback tile.
pub open spec fn fallback_atlas() -> UVec2 {
    UVec2 { x: FALLBACK_X as u32, y: FALLBACK_Y as u32 }
}

/// The atlas coordinate of the lookup error tile.
pub open spec fn lookup_error_atlas() -> UVec2 {
    UVec2 { x: LOOKUP_ERROR_X, y: LOOKUP_ERROR_Y }
}

/// The atlas coordinate stitched at map coordinate `p`: that of the tile its
/// subsector holds there, the fallback tile's for a cell never resolved, or
/// the lookup error tile's when the subsector or the cell is missing.
pub open spec fn stitched_atlas(meta: Grid<Subsector>, p: UVec2) -> UVec2 {
    let (s, l) = spec_tile_position(p);
    if meta.stored_at(s) {
        let g = meta.cells()[index_of(s, meta.spec_size().x)].spec_grid();
        if g.stored_at(l) {
            match g.cells()[index_of(l, g.spec_size().x)]@.tile {
                Some(t) => atlas_of(t),
                None => fallback_atlas(),
            }
        } else {
            lookup_error_atlas()
        }
    } else {
        lookup_error_atlas()
    }
}

/// The subsector holding map coordinate `pos`, and the coordinate within it.
pub fn tile_position(pos: UVec2) -> (r: (UVec2, UVec2))
    ensures
        r == spec_tile_position(pos),
{
    let containing_subsector = UVec2::new(meta_index(pos.x), meta_index(pos.y));
    let position_within = UVec2::new(position_within_sector(pos.x), position_within_sector(pos.y));
    (containing_subsector, position_within)
}

/// The atlas coordinate stitched at map coordinate `pos`.
fn stitched_tile(meta_grid: &Grid<Subsector>, pos: UVec2) -> (r: UVec2)
    requires
        meta_grid.wf(),
        forall|i: int|
            0 <= i < meta_grid.cells().len() ==> (#[trigger] meta_grid.cells()[i]).spec_grid().wf(),
    ensures
        r == stitched_atlas(*meta_grid, pos),
{
    let (subsector, pos_in_subsector) = tile_position(pos);
    match meta_grid.tile(subsector) {
        Some(item) => {
            let ghost k = index_of(subsector, meta_grid.spec_size().x);
            assert(item.spec_contents() == meta_grid.cells()[k]);
            let grid = item.contents().grid();
            match grid.tile(pos_in_subsector) {
                Some(gen_tile) => match gen_tile.contents().static_tile() {
                    Some(static_tile) => {
                        let (x, y) = static_tile.pos();
                        UVec2::new(x as u32, y as u32)
                    },
                    None => UVec2::new(FALLBACK_X as u32, FALLBACK_Y as u32),
                },
                None => UVec2::new(LOOKUP_ERROR_X, LOOKUP_ERROR_Y),
            }
        },
        None => UVec2::new(LOOKUP_ERROR_X, LOOKUP_ERROR_Y),
    }
}

/// Assembles the finished sector: every map coordinate, in storage order,
/// takes the tile its owning subsector holds there, at unit movement cost.
pub fn stitch_subsectors(meta_grid: Grid<Subsector>, name: String, size: UVec2) -> (r: Sector)
    requires
        meta_grid.wf(),
        forall|i: int|
            0 <= i < meta_grid.cells().len() ==> (#[trigger] meta_grid.cells()[i]).spec_grid().wf(),
        area(size) <= u32::MAX,
    ensures
        r.spec_name() == name@,
        r.spec_units().len() == 0,
        r.wf(),
        r.spec_tiles().is_full(),
        r.spec_tiles().spec_size() == size,
        forall|i: int|
            0 <= i < r.spec_tiles().cells().len() ==> (#[trigger] r.spec_tiles().cells()[i]).spec_move_cost()
                == 1 && r.spec_tiles().cells()[i].spec_atlas_position() == stitched_atlas(
                meta_grid,
                pos_of(i, size.x),
            ),
{
    let mut sector_grid = Grid::<Tile>::new(size);
    let ghost w = size.x as int;
    let height = size.y;
    let width = size.x;
    assert(0 * w == 0);
    for y in 0..height
        invariant
            meta_grid.wf(),
            forall|i: int|
                0 <= i < meta_grid.cells().len() ==> (#[trigger] meta_grid.cells()[i]).spec_grid().wf(),
            height == size.y,
            width == size.x,
            w == size.x as int,
            sector_grid.wf(),
            sector_grid.spec_size() == size,
            sector_grid.items().len() == (y as int) * w,
            forall|i: int|
                0 <= i < sector_grid.cells().len() ==> (#[trigger] sector_grid.cells()[i]).spec_move_cost()
                    == 1 && sector_grid.cells()[i].spec_atlas_position() == stitched_atlas(
                    meta_grid,
                    pos_of(i, size.x),
                ),
    {
        for x in 0..width
            invariant
                meta_grid.wf(),
                forall|i: int|
                    0 <= i < meta_grid.cells().len() ==> (#[trigger] meta_grid.cells()[i]).spec_grid().wf(),
                height == size.y,
                width == size.x,
                w == size.x as int,
                y < height,
                sector_grid.wf(),
                sector_grid.spec_size() == size,
                sector_grid.items().len() == (y as int) * w + (x as int),
                forall|i: int|
                    0 <= i < sector_grid.cells().len() ==> (#[trigger] sector_grid.cells()[i]).spec_move_cost()
                        == 1 && sector_grid.cells()[i].spec_atlas_position() == stitched_atlas(
                        meta_grid,
                        pos_of(i, size.x),
                    ),
        {
            let p = UVec2::new(x, y);
            proof {
                lemma_index_round_trip(p, size);
                assert(index_of(p, size.x) == (y as int) * w + (x as int));
            }
            let tile = Tile::new(stitched_tile(&meta_grid, p), 1);
            let ghost before = sector_grid;
            sector_grid.push(GridItem::new(p, tile));
            proof {
                assert forall|i: int| 0 <= i < sector_grid.cells().len() implies (
                #[trigger] sector_grid.cells()[i]).spec_move_cost() == 1
                    && sector_grid.cells()[i].spec_atlas_position() == stitched_atlas(
                    meta_grid,
                    pos_of(i, size.x),
                ) by {
                    if i < before.cells().len() {
                        assert(sector_grid.cells()[i] == before.cells()[i]);
                    }
                }
            }
        }
        assert((y as int) * w + w == (y as int + 1) * w) by (nonlinear_arith);
    }
    proof {
        assert(sector_grid.items().len() == area(size)) by (nonlinear_arith)
            requires
                sector_grid.items().len() == (size.y as int) * w,
                w == size.x,
        ;
    }
    Sector::new(name, sector_grid, Vec::new())
}

} // verus!
