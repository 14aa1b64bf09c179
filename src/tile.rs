use vstd::prelude::*;

verus! {

/// One move of the walk.
#[derive(Clone, Copy, Debug, PartialEq, Eq, Structural)]
pub enum Direction {
    Down,
    Right,
    Left,
}

/// The role of one grid cell; `pos` is `(column, row)`.
#[derive(Clone, Copy, Debug, PartialEq, Eq)]
pub enum MapTile {
    /// Where the walk begins, on the top row.
    Entrance { pos: (u32, u32), to: Direction },
    /// Where the walk ends, on the bottom row.
    Exit { pos: (u32, u32), from: Direction },
    /// A cell that the walk enters and leaves.
    Path { pos: (u32, u32), from: Direction, to: Direction },
    /// A cell that the walk never visits.
    Empty { pos: (u32, u32) },
}

/// The cell that a tile describes.
pub open spec fn pos_of(t: MapTile) -> (u32, u32) {
    match t {
        MapTile::Entrance { pos, .. } => pos,
        MapTile::Exit { pos, .. } => pos,
        MapTile::Path { pos, .. } => pos,
        MapTile::Empty { pos } => pos,
    }
}

impl MapTile {
    /// The cell `(column, row)` that this tile describes.
    pub fn pos(&self) -> (r: (u32, u32))
        ensures
            r == pos_of(*self),
    {
        match self {
            MapTile::Entrance { pos, .. } => *pos,
            MapTile::Exit { pos, .. } => *pos,
            MapTile::Path { pos, .. } => *pos,
            MapTile::Empty { pos } => *pos,
        }
    }
}

} // verus!
