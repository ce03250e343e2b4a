//! Palette entries, generation cells and subsectors.
use vstd::prelude::*;

use crate::grid::{Grid, GridItem};

verus! {

/// What a palette entry means: its atlas coordinate and its four edge labels.
pub struct TileSpec {
    pub x: i32,
    pub y: i32,
    pub down: Seq<char>,
    pub left: Seq<char>,
    pub up: Seq<char>,
    pub right: Seq<char>,
}

/// A palette entry: an atlas coordinate and a label on each of its four edges.
#[derive(Debug)]
pub struct StaticTileInfo {
    x: i32,
    y: i32,
    down: String,
    left: String,
    up: String,
    right: String,
}

impl View for StaticTileInfo {
    type V = TileSpec;

    closed spec fn view(&self) -> TileSpec {
        TileSpec {
            x: self.x,
            y: self.y,
            down: self.down@,
            left: self.left@,
            up: self.up@,
            right: self.right@,
        }
    }
}

impl Clone for StaticTileInfo {
    fn clone(&self) -> (r: Self)
        ensures
            r == *self,
    {
        StaticTileInfo {
            x: self.x,
            y: self.y,
            down: self.down.clone(),
            left: self.left.clone(),
            up: self.up.clone(),
            right: self.right.clone(),
        }
    }
}

impl StaticTileInfo {
    pub fn new(x: i32, y: i32, down: String, left: String, up: String, right: String) -> (r: Self)
        ensures
            r@ == (TileSpec { x, y, down: down@, left: left@, up: up@, right: right@ }),
    {
        Self { x, y, down, left, up, right }
    }

    /// The atlas coordinate.
    pub fn pos(&self) -> (r: (i32, i32))
        ensures
            r == (self@.x, self@.y),
    {
        (self.x, self.y)
    }

    pub fn down(&self) -> (r: &String)
        ensures
            r@ == self@.down,
    {
        &self.down
    }

    pub fn left(&self) -> (r: &String)
        ensures
            r@ == self@.left,
    {
        &self.left
    }

    pub fn right(&self) -> (r: &String)
        ensures
            r@ == self@.right,
    {
        &self.right
    }

    pub fn up(&self) -> (r: &String)
        ensures
            r@ == self@.up,
    {
        &self.up
    }
}

/// The entropy of a generation cell: not yet evaluated, the number of palette
/// entries that still fit, or no longer meaningful because the cell is resolved.
#[derive(Clone, Copy, Debug, PartialEq, Eq, Structural)]
pub enum Entropy {
    Uncalculated,
    Calculated(u32),
    Settled,
}

/// What a generation cell holds: its tile once resolved, and its entropy.
pub struct GenTileView {
    pub tile: Option<TileSpec>,
    pub entropy: Entropy,
}

/// One cell of a subsector while it is being generated.
#[derive(Debug)]
pub struct GenTile {
    static_tile: Option<StaticTileInfo>,
    entropy: Entropy,
}

impl View for GenTile {
    type V = GenTileView;

    closed spec fn view(&self) -> GenTileView {
        GenTileView {
            tile: match self.static_tile {
                Some(t) => Some(t@),
                None => None,
            },
            entropy: self.entropy,
        }
    }
}

impl Clone for GenTile {
    fn clone(&self) -> (r: Self)
        ensures
            r == *self,
    {
        let static_tile = match &self.static_tile {
            Some(t) => Some(t.clone()),
            None => None,
        };
        GenTile { static_tile, entropy: self.entropy }
    }
}

/// The entropy by which cells are compared: a calculated count, or `u32::MAX`.
pub open spec fn entropy_key(e: Entropy) -> u32 {
    match e {
        Entropy::Calculated(n) => n,
        _ => u32::MAX,
    }
}

impl GenTile {
    /// A cell resolved to `static_tile`, its entropy not yet evaluated.
    pub fn new(static_tile: StaticTileInfo) -> (r: Self)
        ensures
            r@ == (GenTileView { tile: Some(static_tile@), entropy: Entropy::Uncalculated }),
    {
        Self { static_tile: Some(static_tile), entropy: Entropy::Uncalculated }
    }

    /// An unresolved cell whose entropy is not yet evaluated.
    pub fn empty() -> (r: Self)
        ensures
            r@ == (GenTileView { tile: None, entropy: Entropy::Uncalculated }),
    {
        Self { static_tile: None, entropy: Entropy::Uncalculated }
    }

    pub fn static_tile(&self) -> (r: &Option<StaticTileInfo>)
        ensures
            r is Some <==> self@.tile is Some,
            r is Some ==> r.unwrap()@ == self@.tile.unwrap(),
    {
        &self.static_tile
    }

    pub fn set_static_tile(&mut self, tile: StaticTileInfo)
        ensures
            final(self)@ == (GenTileView { tile: Some(tile@), entropy: old(self)@.entropy }),
    {
        self.static_tile = Some(tile);
    }

    pub fn entropy(&self) -> (r: Entropy)
        ensures
            r == self@.entropy,
    {
        self.entropy
    }

    pub fn set_entropy(&mut self, entropy: u32)
        ensures
            final(self)@ == (GenTileView { tile: old(self)@.tile, entropy: Entropy::Calculated(entropy) }),
    {
        self.entropy = Entropy::Calculated(entropy);
    }

    pub fn remove_entropy(&mut self)
        ensures
            final(self)@ == (GenTileView { tile: old(self)@.tile, entropy: Entropy::Settled }),
    {
        self.entropy = Entropy::Settled;
    }

    /// Of two items, the one with the lower entropy; `rhs` on a tie. A cell
    /// without a calculated entropy counts as `u32::MAX`.
    pub fn min_entropy<'a>(lhs: &'a GridItem<GenTile>, rhs: &'a GridItem<GenTile>) -> (r: &'a GridItem<GenTile>)
        ensures
            r == (if entropy_key(lhs.spec_contents()@.entropy) < entropy_key(rhs.spec_contents()@.entropy) {
                lhs
            } else {
                rhs
            }),
    {
        let lhs_entropy = match lhs.contents().entropy {
            Entropy::Calculated(e) => e,
            _ => u32::MAX,
        };
        let rhs_entropy = match rhs.contents().entropy {
            Entropy::Calculated(e) => e,
            _ => u32::MAX,
        };
        if lhs_entropy < rhs_entropy {
            lhs
        } else {
            rhs
        }
    }

    /// The cell is resolved.
    pub fn tile_set(&self) -> (r: bool)
        ensures
            r == self@.tile is Some,
    {
        self.static_tile.is_some()
    }
}

/// The generation stage of a subsector, by the parity of its meta coordinate.
/// Primary subsectors are generated first, then both kinds of secondary ones,
/// then tertiary ones.
#[derive(Clone, Copy, Debug, PartialEq, Eq, Structural)]
pub enum GenerationStage {
    Primary,
    SecondaryHorizontal,
    SecondaryVertical,
    Tertiary,
}

/// A rectangular block of generation cells with its stage.
#[derive(Debug)]
pub struct Subsector {
    stage: GenerationStage,
    tiles: Grid<GenTile>,
}

impl Subsector {
    pub closed spec fn spec_stage(&self) -> GenerationStage {
        self.stage
    }

    pub closed spec fn spec_grid(&self) -> Grid<GenTile> {
        self.tiles
    }

    pub fn new(stage: GenerationStage, tiles: Grid<GenTile>) -> (r: Self)
        ensures
            r.spec_stage() == stage,
            r.spec_grid() == tiles,
    {
        Self { stage, tiles }
    }

    pub fn grid(&self) -> (r: &Grid<GenTile>)
        ensures
            *r == self.spec_grid(),
    {
        &self.tiles
    }

    pub fn generation_stage(&self) -> (r: &GenerationStage)
        ensures
            *r == self.spec_stage(),
    {
        &self.stage
    }

    pub fn grid_mut(&mut self) -> (r: &mut Grid<GenTile>)
        ensures
            *r == old(self).spec_grid(),
            final(self).spec_grid() == *final(r),
            final(self).spec_stage() == old(self).spec_stage(),
    {
        &mut self.tiles
    }
}

} // verus!
