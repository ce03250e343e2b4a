use rand::rngs::StdRng;
use rand::SeedableRng;
use wfc_terrain::grid::{Grid, UVec2};
use wfc_terrain::terrain::generate::{
    calculate_entropy, choose_tile, tile_or_fallback, generate_primary_sectors, generate_secondary_sectors,
    generate_subsector, generate_tertiary_sectors, min_entropy, select_tile, tile_allowed,
};
use wfc_terrain::terrain::structs::{Entropy, GenTile, GenerationStage, StaticTileInfo, Subsector};
use wfc_terrain::terrain::subsector::{
    adjust_lengths, generation_stage, meta_index, meta_size, position_within_sector, side_lengths,
    stitch_subsectors, subsectors, tile_position,
};
use wfc_terrain::terrain::generate_terrain;

fn tile(x: i32, y: i32, down: &str, left: &str, up: &str, right: &str) -> StaticTileInfo {
    StaticTileInfo::new(
        x,
        y,
        down.to_string(),
        left.to_string(),
        up.to_string(),
        right.to_string(),
    )
}

/// Every combination of "grass" and "path" on the four edges: any set of
/// neighbour constraints can be met.
fn full_palette() -> Vec<StaticTileInfo> {
    let labels = ["grass", "path"];
    let mut tiles = Vec::new();
    let mut n = 0;
    for d in labels {
        for l in labels {
            for u in labels {
                for r in labels {
                    tiles.push(tile(n % 8, n / 8, d, l, u, r));
                    n += 1;
                }
            }
        }
    }
    tiles
}

fn grass_palette() -> Vec<StaticTileInfo> {
    vec![tile(3, 1, "grass", "grass", "grass", "grass")]
}

fn resolved(grid: &Grid<GenTile>, x: u32, y: u32) -> StaticTileInfo {
    grid.tile(UVec2::new(x, y))
        .unwrap()
        .contents()
        .static_tile()
        .as_ref()
        .unwrap()
        .clone()
}

fn assert_edges_consistent(grid: &Grid<GenTile>) {
    for y in 0..grid.height() {
        for x in 0..grid.width() {
            let here = resolved(grid, x, y);
            if x + 1 < grid.width() {
                let right = resolved(grid, x + 1, y);
                assert_eq!(here.right(), right.left());
            }
            if y + 1 < grid.height() {
                let above = resolved(grid, x, y + 1);
                assert_eq!(here.up(), above.down());
            }
        }
    }
}

#[test]
pub fn test_subsector_generation() {
    let tiles = full_palette();
    let mut rng = StdRng::seed_from_u64(7);
    let mut subsector = Subsector::new(GenerationStage::Primary, Grid::new(UVec2::new(8, 8)));
    subsector.grid_mut().fill(GenTile::empty());
    generate_subsector(&mut subsector, tiles.as_slice(), &mut rng);
    let empty_count = subsector
        .grid()
        .tiles()
        .iter()
        .filter(|t| t.contents().static_tile().is_none())
        .count();
    assert_eq!(empty_count, 0);
}

#[test]
pub fn test_tile_allowed() {
    let mut rand = StdRng::seed_from_u64(11);
    let tiles = full_palette();
    let mut grid = Grid::new(UVec2::new(3, 3));
    grid.fill(GenTile::empty());
    // Top and bottom first, then left and right.

    // Top
    let top_tile = &tiles[5];
    grid.tile_mut(UVec2 { x: 1, y: 2 })
        .unwrap()
        .contents_mut()
        .set_static_tile(top_tile.clone());
    let up = top_tile.down();
    // Bottom
    let bottom_tile = &tiles[10];
    grid.tile_mut(UVec2 { x: 1, y: 0 })
        .unwrap()
        .contents_mut()
        .set_static_tile(bottom_tile.clone());
    let down = bottom_tile.up();
    select_tile(&mut grid, UVec2::new(1, 1), tiles.as_slice(), &mut rand);
    let chosen_static = resolved(&grid, 1, 1);
    assert_eq!(chosen_static.up(), up);
    assert_eq!(chosen_static.down(), down);

    grid.fill(GenTile::empty());
    // Left
    let left_tile = &tiles[3];
    grid.tile_mut(UVec2 { x: 0, y: 1 })
        .unwrap()
        .contents_mut()
        .set_static_tile(left_tile.clone());
    let left = left_tile.right();
    // Right
    let right_tile = &tiles[12];
    grid.tile_mut(UVec2 { x: 2, y: 1 })
        .unwrap()
        .contents_mut()
        .set_static_tile(right_tile.clone());
    let right = right_tile.left();
    select_tile(&mut grid, UVec2::new(1, 1), tiles.as_slice(), &mut rand);
    let chosen_static = resolved(&grid, 1, 1);
    assert_eq!(chosen_static.left(), left);
    assert_eq!(chosen_static.right(), right);
}

#[test]
fn every_cell_resolves_for_many_sizes() {
    let tiles = full_palette();
    let mut rng = StdRng::seed_from_u64(3);
    for (w, h) in [(1, 1), (1, 5), (5, 1), (3, 4), (10, 10)] {
        let mut subsector = Subsector::new(GenerationStage::Tertiary, Grid::new(UVec2::new(w, h)));
        subsector.grid_mut().fill(GenTile::empty());
        generate_subsector(&mut subsector, tiles.as_slice(), &mut rng);
        assert_eq!(subsector.grid().tiles().len(), (w * h) as usize);
        assert!(subsector.grid().tiles().iter().all(|t| t.contents().tile_set()));
    }
}

#[test]
fn adjacent_cells_agree_on_edges() {
    let tiles = full_palette();
    for seed in 0..5 {
        let mut rng = StdRng::seed_from_u64(seed);
        let mut subsector = Subsector::new(GenerationStage::Primary, Grid::new(UVec2::new(8, 6)));
        subsector.grid_mut().fill(GenTile::empty());
        generate_subsector(&mut subsector, tiles.as_slice(), &mut rng);
        assert_edges_consistent(subsector.grid());
    }
}

#[test]
fn single_grass_tile_fills_every_cell() {
    let tiles = grass_palette();
    let mut rng = StdRng::seed_from_u64(5);
    for n in 1..=9 {
        let mut subsector = Subsector::new(GenerationStage::Primary, Grid::new(UVec2::new(n, n)));
        subsector.grid_mut().fill(GenTile::empty());
        generate_subsector(&mut subsector, tiles.as_slice(), &mut rng);
        for item in subsector.grid().tiles() {
            let t = item.contents().static_tile().as_ref().unwrap();
            assert_eq!(t.pos(), (3, 1));
        }
    }
}

#[test]
fn middle_cell_takes_the_only_vertical_fit() {
    // Sand-topped tile and grass-topped tile; each fits above the other.
    let a = tile(0, 0, "sand", "wall", "grass", "wall");
    let b = tile(1, 0, "grass", "fence", "sand", "fence");
    let tiles = vec![a.clone(), b.clone()];
    let mut rng = StdRng::seed_from_u64(1);
    let mut grid = Grid::new(UVec2::new(3, 3));
    grid.fill(GenTile::empty());
    for x in 0..3 {
        grid.tile_mut(UVec2::new(x, 2)).unwrap().contents_mut().set_static_tile(a.clone());
        grid.tile_mut(UVec2::new(x, 0)).unwrap().contents_mut().set_static_tile(a.clone());
    }
    select_tile(&mut grid, UVec2::new(1, 1), tiles.as_slice(), &mut rng);
    let chosen = resolved(&grid, 1, 1);
    assert_eq!(chosen.up(), a.down());
    assert_eq!(chosen.down(), a.up());
    assert_eq!(chosen.pos(), (1, 0));
    assert_eq!(grid.tile(UVec2::new(1, 1)).unwrap().contents().entropy(), Entropy::Settled);
}

#[test]
fn contradiction_falls_back_to_grass_tile() {
    let a = tile(0, 0, "sand", "wall", "grass", "wall");
    let tiles = vec![a.clone()];
    let mut rng = StdRng::seed_from_u64(2);
    let mut grid = Grid::new(UVec2::new(1, 3));
    grid.fill(GenTile::empty());
    // Below shows "grass" upward, but the only tile wants "sand" below it.
    grid.tile_mut(UVec2::new(0, 0)).unwrap().contents_mut().set_static_tile(tile(
        5, 5, "x", "x", "x", "x",
    ));
    select_tile(&mut grid, UVec2::new(0, 1), tiles.as_slice(), &mut rng);
    let chosen = resolved(&grid, 0, 1);
    assert_eq!(chosen.pos(), (22, 4));
    assert_eq!(chosen.up(), "grass");
    assert_eq!(chosen.down(), "grass");
    assert_eq!(chosen.left(), "grass");
    assert_eq!(chosen.right(), "grass");
}

#[test]
fn choose_tile_picks_a_candidate_or_falls_back() {
    let tiles = full_palette();
    let mut rng = StdRng::seed_from_u64(8);
    for _ in 0..20 {
        let t = choose_tile(&tiles, &mut rng);
        assert!(tiles.iter().any(|c| c.pos() == t.pos()));
    }
    assert_eq!(choose_tile(&tiles[9..10], &mut rng).pos(), tiles[9].pos());
    assert_eq!(choose_tile(&[], &mut rng).pos(), (22, 4));
    assert_eq!(tile_or_fallback(Some(&tiles[3])).pos(), tiles[3].pos());
    assert_eq!(tile_or_fallback(None).pos(), (22, 4));
}

#[test]
fn tile_allowed_checks_each_resolved_neighbour() {
    let mut grid = Grid::new(UVec2::new(3, 3));
    grid.fill(GenTile::empty());
    let candidate = tile(0, 0, "a", "b", "c", "d");
    assert!(tile_allowed(UVec2::new(1, 1), &candidate, &grid));
    // Right neighbour shows "d" on its left edge: fits.
    grid.tile_mut(UVec2::new(2, 1)).unwrap().contents_mut().set_static_tile(tile(1, 0, "z", "d", "z", "z"));
    assert!(tile_allowed(UVec2::new(1, 1), &candidate, &grid));
    // Neighbour above shows "q" downward, the candidate shows "c" upward: no fit.
    grid.tile_mut(UVec2::new(1, 2)).unwrap().contents_mut().set_static_tile(tile(2, 0, "q", "z", "z", "z"));
    assert!(!tile_allowed(UVec2::new(1, 1), &candidate, &grid));
    // A corner cell does not look diagonally.
    assert!(tile_allowed(UVec2::new(0, 0), &candidate, &grid));
}

#[test]
fn entropy_counts_fitting_tiles_of_unresolved_neighbours() {
    let tiles = vec![
        tile(0, 0, "grass", "grass", "grass", "grass"),
        tile(1, 0, "path", "grass", "grass", "grass"),
        tile(2, 0, "grass", "path", "grass", "grass"),
    ];
    let mut grid = Grid::new(UVec2::new(3, 3));
    grid.fill(GenTile::empty());
    grid.tile_mut(UVec2::new(1, 1)).unwrap().contents_mut().set_static_tile(tiles[0].clone());
    calculate_entropy(&mut grid, UVec2::new(1, 1), &tiles);
    let entropy_at = |g: &Grid<GenTile>, x: u32, y: u32| g.tile(UVec2::new(x, y)).unwrap().contents().entropy();
    // Above: its down edge must read "grass": two tiles fit.
    assert_eq!(entropy_at(&grid, 1, 2), Entropy::Calculated(2));
    // Right: its left edge must read "grass": two tiles fit.
    assert_eq!(entropy_at(&grid, 2, 1), Entropy::Calculated(2));
    // Below and left: no constraint on those edges beyond "grass" upward/rightward.
    assert_eq!(entropy_at(&grid, 1, 0), Entropy::Calculated(3));
    assert_eq!(entropy_at(&grid, 0, 1), Entropy::Calculated(3));
    // Diagonal cells and the resolved cell are untouched.
    assert_eq!(entropy_at(&grid, 0, 0), Entropy::Uncalculated);
    assert_eq!(entropy_at(&grid, 1, 1), Entropy::Uncalculated);
}

#[test]
fn min_entropy_finds_first_lowest_unresolved() {
    let mut grid = Grid::new(UVec2::new(3, 1));
    grid.fill(GenTile::empty());
    assert_eq!(min_entropy(&grid), None);
    grid.tile_mut(UVec2::new(0, 0)).unwrap().contents_mut().set_entropy(4);
    grid.tile_mut(UVec2::new(1, 0)).unwrap().contents_mut().set_entropy(2);
    grid.tile_mut(UVec2::new(2, 0)).unwrap().contents_mut().set_entropy(2);
    assert_eq!(min_entropy(&grid), Some(UVec2::new(1, 0)));
    // A resolved cell no longer competes.
    grid.tile_mut(UVec2::new(1, 0)).unwrap().contents_mut().set_static_tile(grass_palette()[0].clone());
    assert_eq!(min_entropy(&grid), Some(UVec2::new(2, 0)));
}

#[test]
fn meta_size_formula() {
    assert_eq!(meta_size(0), 1);
    assert_eq!(meta_size(1), 1);
    assert_eq!(meta_size(10), 1);
    assert_eq!(meta_size(11), 3);
    assert_eq!(meta_size(20), 3);
    assert_eq!(meta_size(21), 5);
    assert_eq!(meta_size(72), 15);
}

#[test]
fn position_within_sector_undoes_chunks() {
    let expected = [(0, 0, 0), (7, 0, 7), (8, 1, 0), (9, 1, 1), (10, 2, 0), (17, 2, 7), (18, 3, 0), (25, 4, 5), (29, 5, 1)];
    for (c, chunk, offset) in expected {
        assert_eq!(meta_index(c), chunk);
        assert_eq!(position_within_sector(c), offset);
    }
    assert_eq!(tile_position(UVec2::new(25, 9)), (UVec2::new(4, 1), UVec2::new(5, 1)));
}

#[test]
fn partition_round_trip_recovers_every_coordinate() {
    for c in 0..500u32 {
        let k = meta_index(c);
        let l = position_within_sector(c);
        let start = (k / 2) * 10 + if k % 2 == 1 { 8 } else { 0 };
        let len = if k % 2 == 0 { 8 } else { 2 };
        assert!(l < len);
        assert_eq!(start + l, c);
    }
}

#[test]
fn stages_and_sizes_follow_parity() {
    assert_eq!(generation_stage(0, 0), GenerationStage::Primary);
    assert_eq!(generation_stage(2, 1), GenerationStage::SecondaryHorizontal);
    assert_eq!(generation_stage(1, 4), GenerationStage::SecondaryVertical);
    assert_eq!(generation_stage(3, 3), GenerationStage::Tertiary);
    assert_eq!(side_lengths(GenerationStage::Primary), (8, 8));
    assert_eq!(side_lengths(GenerationStage::SecondaryHorizontal), (8, 2));
    assert_eq!(side_lengths(GenerationStage::SecondaryVertical), (2, 8));
    assert_eq!(side_lengths(GenerationStage::Tertiary), (2, 2));
    assert_eq!(adjust_lengths(GenerationStage::Primary, 8, 8), (8, 8));
    assert_eq!(adjust_lengths(GenerationStage::SecondaryHorizontal, 8, 2), (8, 4));
    assert_eq!(adjust_lengths(GenerationStage::SecondaryVertical, 2, 8), (4, 8));
    assert_eq!(adjust_lengths(GenerationStage::Tertiary, 2, 2), (4, 4));
}

#[test]
fn subsectors_lay_out_the_meta_grid() {
    let meta = subsectors(UVec2::new(20, 12));
    assert_eq!(meta.size(), UVec2::new(3, 3));
    assert_eq!(meta.tiles().len(), 9);
    let s = meta.tile(UVec2::new(1, 2)).unwrap().contents();
    assert_eq!(*s.generation_stage(), GenerationStage::SecondaryVertical);
    assert_eq!(s.grid().size(), UVec2::new(4, 8));
    let t = meta.tile(UVec2::new(1, 1)).unwrap().contents();
    assert_eq!(*t.generation_stage(), GenerationStage::Tertiary);
    assert_eq!(t.grid().size(), UVec2::new(4, 4));
}

#[test]
fn stage_passes_generate_their_subsectors() {
    let tiles = full_palette();
    let mut rng = StdRng::seed_from_u64(9);
    let mut meta = subsectors(UVec2::new(20, 20));
    generate_primary_sectors(&mut meta, &tiles, &mut rng);
    let done = |meta: &Grid<Subsector>, x: u32, y: u32| {
        let g = meta.tile(UVec2::new(x, y)).unwrap().contents().grid();
        !g.tiles().is_empty() && g.tiles().iter().all(|t| t.contents().tile_set())
    };
    assert!(done(&meta, 0, 0) && done(&meta, 2, 2));
    assert!(!done(&meta, 1, 0) && !done(&meta, 1, 1));
    generate_secondary_sectors(&mut meta, &tiles, &mut rng);
    assert!(done(&meta, 1, 0) && done(&meta, 0, 1));
    assert!(!done(&meta, 1, 1));
    generate_tertiary_sectors(&mut meta, &tiles, &mut rng);
    assert!(done(&meta, 1, 1));
    let sector = stitch_subsectors(meta, "stitched".to_string(), UVec2::new(20, 20));
    assert_eq!(sector.tiles().len(), 400);
}

#[test]
fn generated_terrain_covers_every_coordinate() {
    let tiles = full_palette();
    let palette_atlas: Vec<UVec2> = tiles
        .iter()
        .map(|t| UVec2::new(t.pos().0 as u32, t.pos().1 as u32))
        .collect();
    let mut rng = StdRng::seed_from_u64(21);
    for (w, h) in [(1, 1), (8, 8), (18, 28), (23, 7)] {
        let sector = generate_terrain(UVec2::new(w, h), "test".to_string(), &tiles, &mut rng);
        assert_eq!(sector.name(), "test");
        assert_eq!(sector.tiles().len(), (w * h) as usize);
        for (i, item) in sector.tiles().iter().enumerate() {
            assert_eq!(item.pos(), UVec2::new(i as u32 % w, i as u32 / w));
            // Every combination of labels is in the palette, so no cell
            // ever needs the fallback tile.
            let a = item.contents().atlas_position();
            assert!(palette_atlas.contains(&a));
            assert_eq!(item.contents().move_cost(), 1);
        }
    }
}

#[test]
fn uncovered_coordinates_take_the_lookup_error_tile() {
    let tiles = grass_palette();
    let mut rng = StdRng::seed_from_u64(4);
    // One chunk spans eight tiles; the last two columns have no subsector.
    let sector = generate_terrain(UVec2::new(10, 3), "edge".to_string(), &tiles, &mut rng);
    for item in sector.tiles() {
        let a = item.contents().atlas_position();
        if item.pos().x < 8 {
            assert_eq!(a, UVec2::new(3, 1));
        } else {
            assert_eq!(a, UVec2::new(21, 5));
        }
    }
}
