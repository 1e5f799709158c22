//! The tile grid.

use vstd::prelude::*;

verus! {

/// One cell of the grid.
#[derive(Clone, Copy, Debug, PartialEq, Eq, Structural)]
pub struct Tile {
    pub blocking: bool,
    pub blocking_sight: bool,
    pub explored: bool,
}

/// An open floor tile, not yet explored.
pub open spec fn open_tile() -> Tile {
    Tile { blocking: false, blocking_sight: false, explored: false }
}

/// A wall tile, not yet explored.
pub open spec fn wall_tile() -> Tile {
    Tile { blocking: true, blocking_sight: true, explored: false }
}

impl Tile {
    /// An open floor tile, not yet explored.
    pub fn empty() -> (r: Self)
        ensures
            r == open_tile(),
    {
        Tile { blocking: false, blocking_sight: false, explored: false }
    }

    /// A wall tile, not yet explored.
    pub fn wall() -> (r: Self)
        ensures
            r == wall_tile(),
    {
        Tile { blocking: true, blocking_sight: true, explored: false }
    }
}

/// A rectangular grid of tiles, stored column by column: `tiles[x][y]`.
pub struct TileMap {
    pub width: i32,
    pub height: i32,
    pub tiles: Vec<Vec<Tile>>,
}

impl TileMap {
    /// Every column has `height` tiles and there are `width` columns.
    pub open spec fn wf(&self) -> bool {
        &&& 0 <= self.width
        &&& 0 <= self.height
        &&& self.tiles@.len() == self.width
        &&& forall|x: int| 0 <= x < self.width ==> (#[trigger] self.tiles@[x])@.len() == self.height
    }

    /// `(x, y)` is on the map.
    pub open spec fn in_bounds(&self, x: int, y: int) -> bool {
        0 <= x < self.width && 0 <= y < self.height
    }

    /// The tile at `(x, y)`.
    pub open spec fn tile(&self, x: int, y: int) -> Tile {
        self.tiles@[x]@[y]
    }

    /// A `width` by `height` grid of walls.
    pub fn new(width: i32, height: i32) -> (r: TileMap)
        requires
            0 <= width,
            0 <= height,
        ensures
            r.wf(),
            r.width == width,
            r.height == height,
            forall|x: int, y: int| r.in_bounds(x, y) ==> r.tile(x, y) == wall_tile(),
    {
        let mut tiles: Vec<Vec<Tile>> = Vec::new();
        let mut x: i32 = 0;
        while x < width
            invariant
                0 <= x <= width,
                0 <= height,
                tiles@.len() == x,
                forall|i: int| 0 <= i < x ==> (#[trigger] tiles@[i])@.len() == height,
                forall|i: int, j: int|
                    0 <= i < x && 0 <= j < height ==> #[trigger] tiles@[i]@[j] == wall_tile(),
            decreases width - x,
        {
            let mut column: Vec<Tile> = Vec::new();
            let mut y: i32 = 0;
            while y < height
                invariant
                    0 <= y <= height,
                    column@.len() == y,
                    forall|j: int| 0 <= j < y ==> #[trigger] column@[j] == wall_tile(),
                decreases height - y,
            {
                column.push(Tile::wall());
                y = y + 1;
            }
            tiles.push(column);
            x = x + 1;
        }
        TileMap { width, height, tiles }
    }

    /// Replaces the tile at `(x, y)`.
    pub fn set_tile(&mut self, x: i32, y: i32, t: Tile)
        requires
            old(self).wf(),
            old(self).in_bounds(x as int, y as int),
        ensures
            final(self).wf(),
            final(self).width == old(self).width,
            final(self).height == old(self).height,
            forall|i: int, j: int|
                final(self).in_bounds(i, j) ==> final(self).tile(i, j) == (if i == x && j == y {
                    t
                } else {
                    old(self).tile(i, j)
                }),
    {
        self.tiles[x as usize][y as usize] = t;
        assert(forall|i: int| #![auto] 0 <= i < self.width && i != x ==> self.tiles@[i] == old(self).tiles@[i]);
    }

    /// Whether `(x, y)` blocks movement.
    pub fn is_blocking(&self, x: i32, y: i32) -> (r: bool)
        requires
            self.wf(),
            self.in_bounds(x as int, y as int),
        ensures
            r == self.tile(x as int, y as int).blocking,
    {
        self.tiles[x as usize][y as usize].blocking
    }

    /// Whether `(x, y)` blocks sight.
    pub fn is_blocking_sight(&self, x: i32, y: i32) -> (r: bool)
        requires
            self.wf(),
            self.in_bounds(x as int, y as int),
        ensures
            r == self.tile(x as int, y as int).blocking_sight,
    {
        self.tiles[x as usize][y as usize].blocking_sight
    }

    /// Whether `(x, y)` has ever been seen.
    pub fn is_explored(&self, x: i32, y: i32) -> (r: bool)
        requires
            self.wf(),
            self.in_bounds(x as int, y as int),
        ensures
            r == self.tile(x as int, y as int).explored,
    {
        self.tiles[x as usize][y as usize].explored
    }

    /// Marks `(x, y)` as seen; nothing else changes.
    pub fn set_explored(&mut self, x: i32, y: i32)
        requires
            old(self).wf(),
            old(self).in_bounds(x as int, y as int),
        ensures
            final(self).wf(),
            final(self).width == old(self).width,
            final(self).height == old(self).height,
            forall|i: int, j: int|
                final(self).in_bounds(i, j) ==> final(self).tile(i, j) == (if i == x && j == y {
                    Tile { explored: true, ..old(self).tile(i, j) }
                } else {
                    old(self).tile(i, j)
                }),
    {
        let t = self.tiles[x as usize][y as usize];
        self.set_tile(x, y, Tile { explored: true, ..t });
    }
}

} // verus!
