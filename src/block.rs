use vstd::prelude::*;

verus! {

/// The kinds of block. `Null` is air: it is never drawn.
#[derive(Clone, Copy, Debug, PartialEq, Eq, Structural)]
pub enum Blocks {
    Grass,
    Dirt,
    Null,
}

/// Id of grass in a block grid.
pub const GRASS_ID: u16 = 0;

/// Id of dirt in a block grid.
pub const DIRT_ID: u16 = 1;

/// An id that the catalog does not map, used for air.
pub const AIR_ID: u16 = 65535;

/// Number of atlas cells along each side of the texture atlas.
pub const ATLAS_CELLS: u32 = 16;

/// The kind that a block id stands for: every id the catalog does not map is air.
pub open spec fn block_of(id: u16) -> Blocks {
    if id == GRASS_ID {
        Blocks::Grass
    } else if id == DIRT_ID {
        Blocks::Dirt
    } else {
        Blocks::Null
    }
}

/// Whether a block id stands for air.
pub open spec fn is_air(id: u16) -> bool {
    block_of(id) == Blocks::Null
}

/// Atlas cell (column, row) that the faces of a kind start from.
pub open spec fn atlas_anchor(b: Blocks) -> (u32, u32) {
    match b {
        Blocks::Grass => (0, 0),
        Blocks::Dirt => (0, 1),
        Blocks::Null => (ATLAS_CELLS, ATLAS_CELLS),
    }
}

impl Blocks {
    /// Atlas cell (column, row) that the faces of this kind start from, in
    /// units of one cell (a sixteenth of the atlas side).
    pub fn coords(&self) -> (r: (u32, u32))
        ensures
            r == atlas_anchor(*self),
    {
        match self {
            Blocks::Grass => (0, 0),
            Blocks::Dirt => (0, 1),
            Blocks::Null => (ATLAS_CELLS, ATLAS_CELLS),
        }
    }
}

/// The block catalog: maps block ids to kinds.
#[derive(Clone, Copy, Debug)]
pub struct BlockWrapper;

impl BlockWrapper {
    /// The kind of block `index`; ids the catalog does not map are air.
    pub fn index(&self, index: u16) -> (r: Blocks)
        ensures
            r == block_of(index),
    {
        if index == GRASS_ID {
            Blocks::Grass
        } else if index == DIRT_ID {
            Blocks::Dirt
        } else {
            Blocks::Null
        }
    }
}

} // verus!
