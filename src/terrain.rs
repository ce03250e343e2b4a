//! Terrain synthesis: a map is split into subsectors, each subsector is filled
//! by wave function collapse, and the results are stitched into one sector.
pub mod generate;
pub mod structs;
pub mod subsector;

use rand::rngs::StdRng;
use vstd::prelude::*;

use crate::grid::{area, index_of, pos_of, Grid, UVec2};
use crate::sector::Sector;

use self::generate::{
    generate_primary_sectors, generate_secondary_sectors, generate_tertiary_sectors, generated,
    palette_complete, palette_view, pass_done, stage_pass, tile_layer,
};
use self::structs::{StaticTileInfo, Subsector, TileSpec};
use self::subsector::{
    allocated_size, atlas_of, chunk_index, chunk_len, chunk_offset, fallback_atlas,
    lemma_partition_round_trip, lookup_error_atlas, meta_count, span, stage_of,
    stitch_subsectors, stitched_atlas, subsectors,
};

verus! {

/// The shortest chunk length, in tiles.
pub const BASE_SIZE: u32 = 2;

/// How many times longer a long chunk is than a short one.
pub const LONG_RATIO: u32 = 4;

/// Length of a short (blending) chunk.
pub const SHORT_LENGTH: u32 = BASE_SIZE;

/// Length of a long (primary) chunk.
pub const LONG_LENGTH: u32 = BASE_SIZE * LONG_RATIO;

/// Atlas coordinate `a` is that of a palette entry.
pub open spec fn palette_atlas(palette: Seq<TileSpec>, a: UVec2) -> bool {
    exists|t: TileSpec| #[trigger] palette.contains(t) && a == atlas_of(t)
}

/// Atlas coordinate `a` is that of a palette entry or of the fallback tile.
pub open spec fn palette_or_fallback(palette: Seq<TileSpec>, a: UVec2) -> bool {
    a == fallback_atlas() || palette_atlas(palette, a)
}

/// `meta` is the meta grid of a map of the given size with every subsector
/// generated from the palette: one subsector per chunk pair, each with the
/// stage and allocated size its meta coordinate gives it.
pub open spec fn generated_partition(meta: Grid<Subsector>, palette: Seq<TileSpec>, size: UVec2) -> bool {
    &&& meta.wf()
    &&& meta.is_full()
    &&& meta.spec_size() == (UVec2 { x: meta_count(size.x) as u32, y: meta_count(size.y) as u32 })
    &&& forall|i: int|
        0 <= i < meta.cells().len() ==> {
            let c = #[trigger] meta.cells()[i];
            let p = pos_of(i, meta.spec_size().x);
            &&& generated(c.spec_grid(), palette)
            &&& c.spec_stage() == stage_of(p.x, p.y)
            &&& c.spec_grid().spec_size() == allocated_size(stage_of(p.x, p.y))
        }
}

/// Chunk counts never exceed the axis length (or one, for an empty axis).
proof fn lemma_meta_count_bound(n: u32)
    ensures
        1 <= meta_count(n) <= if n == 0 { 1 } else { n as nat },
{
    let m = if n == 0 { 1int } else { n as int };
    let p = (LONG_LENGTH + SHORT_LENGTH) as int;
    vstd::arithmetic::div_mod::lemma_fundamental_div_mod(m + p - 1, p);
    assert((m + p - 1) / p >= 1);
    assert(2 * ((m + p - 1) / p) - 1 <= m) by (nonlinear_arith)
        requires
            m + p - 1 == p * ((m + p - 1) / p) + (m + p - 1) % p,
            0 <= (m + p - 1) % p < p,
            p == 10,
            m >= 1,
    ;
}

/// Generates a map of the given size from a palette: the map is partitioned
/// into subsectors, the primary, secondary and tertiary subsectors are
/// generated in that order, and the results are stitched into one sector.
///
/// The sector has exactly one tile per map coordinate, each at unit movement
/// cost, stitched from a meta grid whose subsectors are all generated. Every
/// tile shows a palette entry, the fallback tile, or the lookup error tile;
/// the lookup error tile appears only outside the span of the subsector
/// chunks; and with a palette that never runs into a contradiction every tile
/// within that span shows a palette entry.
pub fn generate_terrain(size: UVec2, name: String, static_tiles: &[StaticTileInfo], rng: &mut StdRng) -> (r: Sector)
    requires
        static_tiles@.len() > 0,
        static_tiles@.len() <= u32::MAX,
        area(size) <= u32::MAX,
    ensures
        r.spec_name() == name@,
        r.spec_units().len() == 0,
        r.wf(),
        r.spec_tiles().is_full(),
        r.spec_tiles().spec_size() == size,
        forall|i: int|
            0 <= i < r.spec_tiles().cells().len() ==> {
                let t = #[trigger] r.spec_tiles().cells()[i];
                let p = pos_of(i, size.x);
                &&& t.spec_move_cost() == 1
                &&& palette_or_fallback(palette_view(static_tiles@), t.spec_atlas_position())
                    || t.spec_atlas_position() == lookup_error_atlas()
                &&& (p.x < span(size.x) && p.y < span(size.y)) ==> palette_or_fallback(
                    palette_view(static_tiles@),
                    t.spec_atlas_position(),
                )
                &&& (palette_complete(palette_view(static_tiles@)) && p.x < span(size.x) && p.y < span(
                    size.y,
                )) ==> palette_atlas(palette_view(static_tiles@), t.spec_atlas_position())
            },
        exists|meta: Grid<Subsector>|
            #[trigger] generated_partition(meta, palette_view(static_tiles@), size) && forall|i: int|
                0 <= i < r.spec_tiles().cells().len() ==> (#[trigger] r.spec_tiles().cells()[i]).spec_atlas_position()
                    == stitched_atlas(meta, pos_of(i, size.x)),
{
    proof {
        lemma_meta_count_bound(size.x);
        lemma_meta_count_bound(size.y);
        let mx = meta_count(size.x);
        let my = meta_count(size.y);
        let bx = if size.x == 0 { 1nat } else { size.x as nat };
        let by = if size.y == 0 { 1nat } else { size.y as nat };
        assert(mx * my <= bx * by) by (nonlinear_arith)
            requires
                1 <= mx <= bx,
                1 <= my <= by,
        ;
        assert(bx * by <= u32::MAX) by (nonlinear_arith)
            requires
                bx == if size.x == 0 { 1nat } else { size.x as nat },
                by == if size.y == 0 { 1nat } else { size.y as nat },
                (size.x as nat) * (size.y as nat) <= u32::MAX,
        ;
    }
    let mut meta_grid = subsectors(size);
    let ghost m0 = meta_grid;
    generate_primary_sectors(&mut meta_grid, static_tiles, rng);
    let ghost m1 = meta_grid;
    generate_secondary_sectors(&mut meta_grid, static_tiles, rng);
    let ghost m2 = meta_grid;
    generate_tertiary_sectors(&mut meta_grid, static_tiles, rng);
    let ghost palette = palette_view(static_tiles@);
    proof {
        assert forall|i: int| 0 <= i < meta_grid.cells().len() implies {
            let c = #[trigger] meta_grid.cells()[i];
            let p = pos_of(i, meta_grid.spec_size().x);
            &&& generated(c.spec_grid(), palette)
            &&& c.spec_stage() == stage_of(p.x, p.y)
            &&& c.spec_grid().spec_size() == allocated_size(stage_of(p.x, p.y))
        } by {
            let st = m0.cells()[i].spec_stage();
            assert(m1.cells()[i].spec_stage() == st);
            assert(m2.cells()[i].spec_stage() == st);
            assert(stage_pass(st) <= 2);
        }
        assert(generated_partition(meta_grid, palette, size));
    }
    let ghost final_meta = meta_grid;
    let r = stitch_subsectors(meta_grid, name, size);
    proof {
        let ms = meta_grid.spec_size();
        assert forall|i: int| 0 <= i < r.spec_tiles().cells().len() implies {
            let t = #[trigger] r.spec_tiles().cells()[i];
            let p = pos_of(i, size.x);
            &&& t.spec_move_cost() == 1
            &&& palette_or_fallback(palette, t.spec_atlas_position()) || t.spec_atlas_position()
                == lookup_error_atlas()
            &&& (p.x < span(size.x) && p.y < span(size.y)) ==> palette_or_fallback(
                palette,
                t.spec_atlas_position(),
            )
            &&& (palette_complete(palette) && p.x < span(size.x) && p.y < span(size.y)) ==> palette_atlas(
                palette,
                t.spec_atlas_position(),
            )
        } by {
            let p = pos_of(i, size.x);
            let s = UVec2 { x: chunk_index(p.x) as u32, y: chunk_index(p.y) as u32 };
            let l = UVec2 { x: chunk_offset(p.x) as u32, y: chunk_offset(p.y) as u32 };
            lemma_partition_round_trip(p.x, size.x);
            lemma_partition_round_trip(p.y, size.y);
            if meta_grid.stored_at(s) {
                let k = index_of(s, ms.x);
                crate::grid::lemma_index_round_trip(s, ms);
                let g = meta_grid.cells()[k].spec_grid();
                assert(generated(g, palette));
                if g.stored_at(l) {
                    let li = index_of(l, g.spec_size().x);
                    let layer = tile_layer(g);
                    assert(layer[li] == g.cells()[li]@.tile);
                    assert(layer[li] is Some);
                    if layer[li] != Some(self::generate::fallback_tile()) || palette_complete(palette) {
                        assert(palette.contains(layer[li].unwrap()));
                    }
                }
            }
            if p.x < span(size.x) && p.y < span(size.y) {
                assert(ms == m0.spec_size());
                assert(s.x < ms.x && s.y < ms.y);
                crate::grid::lemma_index_round_trip(s, ms);
                assert(meta_grid.cells().len() == m0.cells().len());
                assert(meta_grid.stored_at(s));
                let k = index_of(s, ms.x);
                crate::grid::lemma_index_round_trip(s, ms);
                let g = meta_grid.cells()[k].spec_grid();
                assert(g.spec_size() == allocated_size(stage_of(s.x, s.y)));
                assert(chunk_offset(p.x) < chunk_len(chunk_index(p.x)));
                assert(chunk_offset(p.y) < chunk_len(chunk_index(p.y)));
                assert(crate::grid::in_bounds(l, g.spec_size()));
                assert(g.stored_at(l)) by {
                    crate::grid::lemma_index_round_trip(l, g.spec_size());
                }
            }
        }
        assert(generated_partition(final_meta, palette, size));
    }
    r
}

} // verus!
