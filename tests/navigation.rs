use wfc_terrain::grid::{Grid, GridItem, UVec2};
use wfc_terrain::sector::{NavigationBitmask, Sector, Tile, Unit};

fn uniform_sector(w: u32, h: u32, cost: u32) -> Sector {
    let mut grid = Grid::new(UVec2::new(w, h));
    grid.fill(Tile::new(UVec2::new(0, 0), cost));
    Sector::new("flat".to_string(), grid, Vec::new())
}

fn reachable(unit: &Unit, w: u32, h: u32) -> Vec<bool> {
    let mut out = Vec::new();
    for y in 0..h {
        for x in 0..w {
            out.push(unit.can_reach_tile(UVec2::new(x, y)).unwrap());
        }
    }
    out
}

#[test]
fn own_tile_is_always_reachable() {
    let sector = uniform_sector(9, 9, 1);
    for budget in [0, 1, 5] {
        let unit = Unit::new(UVec2::new(4, 4), budget, &sector).unwrap();
        assert_eq!(unit.can_reach_tile(UVec2::new(4, 4)), Some(true));
    }
}

#[test]
fn reachable_set_grows_with_budget() {
    let sector = uniform_sector(9, 9, 1);
    let mut previous = reachable(&Unit::new(UVec2::new(4, 4), 0, &sector).unwrap(), 9, 9);
    assert_eq!(previous.iter().filter(|b| **b).count(), 1);
    for budget in 1..8 {
        let now = reachable(&Unit::new(UVec2::new(4, 4), budget, &sector).unwrap(), 9, 9);
        for i in 0..now.len() {
            assert!(!previous[i] || now[i]);
        }
        previous = now;
    }
}

#[test]
fn ring_sweep_costs_on_flat_ground() {
    let sector = uniform_sector(9, 9, 1);
    let unit = Unit::new(UVec2::new(4, 4), 1, &sector).unwrap();
    assert_eq!(unit.can_reach_tile(UVec2::new(5, 4)), Some(true));
    assert_eq!(unit.can_reach_tile(UVec2::new(4, 3)), Some(true));
    assert_eq!(unit.can_reach_tile(UVec2::new(6, 4)), Some(false));
    assert_eq!(unit.can_reach_tile(UVec2::new(5, 5)), Some(false));
    let unit = Unit::new(UVec2::new(4, 4), 2, &sector).unwrap();
    assert_eq!(unit.can_reach_tile(UVec2::new(6, 4)), Some(true));
    assert_eq!(unit.can_reach_tile(UVec2::new(5, 5)), Some(true));
    assert_eq!(unit.can_reach_tile(UVec2::new(6, 5)), Some(false));
    // A cell reached only after its ring was swept passes nothing on: the
    // sweep never reaches two steps along both axes.
    let unit = Unit::new(UVec2::new(4, 4), 100, &sector).unwrap();
    assert_eq!(unit.can_reach_tile(UVec2::new(6, 5)), Some(true));
    assert_eq!(unit.can_reach_tile(UVec2::new(6, 6)), Some(false));
}

#[test]
fn higher_move_cost_shrinks_reach() {
    let sector = uniform_sector(9, 9, 3);
    let unit = Unit::new(UVec2::new(4, 4), 5, &sector).unwrap();
    assert_eq!(unit.can_reach_tile(UVec2::new(5, 4)), Some(true));
    assert_eq!(unit.can_reach_tile(UVec2::new(6, 4)), Some(false));
    let unit = Unit::new(UVec2::new(4, 4), 6, &sector).unwrap();
    assert_eq!(unit.can_reach_tile(UVec2::new(6, 4)), Some(true));
}

#[test]
fn unit_at_the_edge_reaches_only_its_tile() {
    let sector = uniform_sector(5, 5, 1);
    let unit = Unit::new(UVec2::new(0, 2), 10, &sector).unwrap();
    let flags = reachable(&unit, 5, 5);
    assert_eq!(flags.iter().filter(|b| **b).count(), 1);
    assert_eq!(unit.can_reach_tile(UVec2::new(0, 2)), Some(true));
}

#[test]
fn unit_outside_the_sector_fails() {
    let sector = uniform_sector(5, 5, 1);
    assert!(Unit::new(UVec2::new(5, 0), 3, &sector).is_err());
    assert!(Unit::new(UVec2::new(0, 7), 3, &sector).is_err());
    let empty = uniform_sector(0, 0, 1);
    assert!(Unit::new(UVec2::new(0, 0), 3, &empty).is_err());
}

#[test]
fn can_reach_tile_outside_mask_is_none() {
    let sector = uniform_sector(5, 5, 1);
    let unit = Unit::new(UVec2::new(2, 2), 3, &sector).unwrap();
    assert_eq!(unit.can_reach_tile(UVec2::new(5, 0)), None);
    assert_eq!(unit.pos(), UVec2::new(2, 2));
    assert_eq!(unit.movement(), 3);
}

#[test]
fn sector_lookups_and_units() {
    let mut sector = uniform_sector(4, 3, 1);
    assert_eq!(sector.width(), 4);
    assert_eq!(sector.height(), 3);
    assert_eq!(sector.index(UVec2::new(1, 2)), 9);
    assert_eq!(sector.from_index(9), UVec2::new(1, 2));
    assert!(sector.tile(UVec2::new(3, 2)).is_some());
    assert!(sector.tile(UVec2::new(4, 0)).is_none());
    let unit = Unit::new(UVec2::new(1, 1), 2, &sector).unwrap();
    sector.add_unit(unit);
    assert_eq!(sector.units().len(), 1);
    assert!(sector.unit_at_tile(UVec2::new(1, 1)).is_some());
    assert!(sector.unit_at_tile(UVec2::new(2, 1)).is_none());
}

#[test]
fn grid_neighbours_exist_only_inside() {
    let mut grid = Grid::new(UVec2::new(3, 3));
    grid.fill(0u8);
    let corner: Vec<UVec2> = grid.adjacent(UVec2::new(0, 0)).iter().map(|t| t.pos()).collect();
    assert_eq!(corner, vec![UVec2::new(1, 0), UVec2::new(0, 1)]);
    let centre: Vec<UVec2> = grid.adjacent(UVec2::new(1, 1)).iter().map(|t| t.pos()).collect();
    assert_eq!(centre, vec![UVec2::new(1, 0), UVec2::new(0, 1), UVec2::new(2, 1), UVec2::new(1, 2)]);
    assert_eq!(grid.adjacent_diagonal(UVec2::new(1, 1)).len(), 8);
    assert_eq!(grid.adjacent_diagonal(UVec2::new(2, 2)).len(), 3);
    assert!(grid.tile(UVec2::new(3, 0)).is_none());
    let _item: &GridItem<u8> = grid.tile(UVec2::new(2, 2)).unwrap();
}

#[test]
fn bitmask_matches_the_unit_mask() {
    let sector = uniform_sector(7, 7, 1);
    let unit = Unit::new(UVec2::new(3, 3), 2, &sector).unwrap();
    let mask = NavigationBitmask::generate(&unit, &sector).unwrap();
    assert_eq!(mask.size(), UVec2::new(7, 7));
    let outside = Unit::new(UVec2::new(3, 3), 2, &uniform_sector(4, 4, 1)).unwrap();
    assert!(NavigationBitmask::generate(&outside, &uniform_sector(2, 2, 1)).is_err());
}
