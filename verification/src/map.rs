//! The fixed-size tile grid: tile kinds, coordinates and indices, and the
//! neighbour enumeration that path-finding and field-of-view build on.

use vstd::prelude::*;

verus! {

/// Width of the grid in tiles.
pub const SCREEN_WIDTH: i32 = 80;

/// Height of the grid in tiles.
pub const SCREEN_HEIGHT: i32 = 50;

/// Number of tiles of the grid.
pub const NUM_TILES: usize = 4000;

/// The kind of one grid cell.
#[derive(Clone, Copy, PartialEq, Eq, Structural, Debug)]
pub enum TileType {
    Wall,
    Floor,
    Exit,
}

/// A grid coordinate. It may lie outside the grid.
#[derive(Clone, Copy, PartialEq, Eq, Structural, Debug, Hash)]
pub struct Point {
    pub x: i32,
    pub y: i32,
}

impl Point {
    /// The point `(x, y)`.
    pub fn new(x: i32, y: i32) -> (p: Point)
        ensures
            p == (Point { x, y }),
    {
        Point { x, y }
    }
}

/// Whether `(x, y)` lies on the grid.
pub open spec fn in_grid(x: int, y: int) -> bool {
    0 <= x < 80 && 0 <= y < 50
}

/// Row-major index of the cell `(x, y)`.
pub open spec fn index_of(x: int, y: int) -> int {
    y * 80 + x
}

/// The cell that the index `idx` stands for: the inverse of [`index_of`]
/// on the grid. It is meant for an index whose row an `i32` holds.
pub open spec fn point_of(idx: int) -> Point {
    Point { x: (idx % 80) as i32, y: (idx / 80) as i32 }
}

/// Whether a creature may stand on a tile of this kind.
pub open spec fn walkable(tile: TileType) -> bool {
    tile == TileType::Floor || tile == TileType::Exit
}

/// Index of the cell `(x, y)` in the tile vector. The cell must lie on the
/// grid.
pub fn map_idx(x: i32, y: i32) -> (idx: usize)
    requires
        in_grid(x as int, y as int),
    ensures
        idx == index_of(x as int, y as int),
        idx < NUM_TILES,
{
    (y * SCREEN_WIDTH + x) as usize
}

/// Converting a cell of the grid to its index and back gives the cell.
pub proof fn lemma_point_round_trip(x: int, y: int)
    requires
        in_grid(x, y),
    ensures
        0 <= index_of(x, y) < 4000,
        point_of(index_of(x, y)) == (Point { x: x as i32, y: y as i32 }),
{
}

/// Converting an index of the grid to its cell and back gives the index.
pub proof fn lemma_index_round_trip(idx: int)
    requires
        0 <= idx < 4000,
    ensures
        in_grid(point_of(idx).x as int, point_of(idx).y as int),
        index_of(point_of(idx).x as int, point_of(idx).y as int) == idx,
{
}

/// The tile grid of one level.
pub struct GridMap {
    pub tiles: Vec<TileType>,
    pub revealed_tiles: Vec<bool>,
}

impl GridMap {
    /// Both vectors hold one entry for each tile of the grid.
    pub open spec fn wf(&self) -> bool {
        self.tiles@.len() == 4000 && self.revealed_tiles@.len() == 4000
    }

    /// Whether no tile of the grid has been seen yet.
    pub open spec fn unseen(&self) -> bool {
        forall|i: int| 0 <= i < 4000 ==> !self.revealed_tiles@[i]
    }

    /// Whether the cell `(x, y)` lies on the grid and holds a walkable tile.
    pub open spec fn enterable(&self, x: int, y: int) -> bool {
        in_grid(x, y) && walkable(self.tiles@[index_of(x, y)])
    }

    /// The index of the cell `(x, y)` where a creature may enter it.
    pub open spec fn exit_to(&self, x: int, y: int) -> Option<usize> {
        if self.enterable(x, y) {
            Some(index_of(x, y) as usize)
        } else {
            None
        }
    }

    /// The walkable orthogonal neighbours of the cell at `idx`, in the
    /// order west, east, north, south.
    pub open spec fn exits(&self, idx: int) -> Seq<usize> {
        let p = point_of(idx);
        let west = self.exit_to(p.x - 1, p.y as int);
        let east = self.exit_to(p.x + 1, p.y as int);
        let north = self.exit_to(p.x as int, p.y - 1);
        let south = self.exit_to(p.x as int, p.y + 1);
        some_seq(west) + some_seq(east) + some_seq(north) + some_seq(south)
    }

    /// A grid of floor tiles, none of them revealed.
    pub fn new() -> (map: GridMap)
        ensures
            map.wf(),
            map.unseen(),
            forall|i: int| 0 <= i < 4000 ==> map.tiles@[i] == TileType::Floor,
    {
        let mut tiles: Vec<TileType> = Vec::new();
        let mut revealed_tiles: Vec<bool> = Vec::new();
        let mut i: usize = 0;
        while i < NUM_TILES
            invariant
                i <= NUM_TILES,
                tiles@.len() == i,
                revealed_tiles@.len() == i,
                forall|j: int| 0 <= j < i ==> tiles@[j] == TileType::Floor,
                forall|j: int| 0 <= j < i ==> !revealed_tiles@[j],
            decreases NUM_TILES - i,
        {
            tiles.push(TileType::Floor);
            revealed_tiles.push(false);
            i += 1;
        }
        GridMap { tiles, revealed_tiles }
    }

    /// Whether `point` lies on the grid.
    pub fn in_bounds(&self, point: Point) -> (inside: bool)
        ensures
            inside == in_grid(point.x as int, point.y as int),
    {
        point.x >= 0 && point.x < SCREEN_WIDTH && point.y >= 0 && point.y < SCREEN_HEIGHT
    }

    /// Whether a creature may enter `point`: it lies on the grid and its
    /// tile is floor or the exit.
    pub fn can_enter_tile(&self, point: Point) -> (open: bool)
        requires
            self.wf(),
        ensures
            open == self.enterable(point.x as int, point.y as int),
    {
        if !self.in_bounds(point) {
            return false;
        }
        let tile = self.tiles[map_idx(point.x, point.y)];
        tile == TileType::Floor || tile == TileType::Exit
    }

    /// The index of `point`, or `None` where it lies outside the grid.
    pub fn try_idx(&self, point: Point) -> (idx: Option<usize>)
        ensures
            idx == if in_grid(point.x as int, point.y as int) {
                Some(index_of(point.x as int, point.y as int) as usize)
            } else {
                None
            },
    {
        if !self.in_bounds(point) {
            None
        } else {
            Some(map_idx(point.x, point.y))
        }
    }

    /// The index of the cell at `loc + delta` where a creature may enter
    /// it, the sum taken without wrapping.
    pub fn valid_exit(&self, loc: Point, delta: Point) -> (exit: Option<usize>)
        requires
            self.wf(),
        ensures
            exit == self.exit_to(loc.x + delta.x, loc.y + delta.y),
    {
        let x: i64 = loc.x as i64 + delta.x as i64;
        let y: i64 = loc.y as i64 + delta.y as i64;
        if x < 0 || x >= SCREEN_WIDTH as i64 || y < 0 || y >= SCREEN_HEIGHT as i64 {
            return None;
        }
        let destination = Point { x: x as i32, y: y as i32 };
        if self.can_enter_tile(destination) {
            Some(self.point2d_to_index(destination))
        } else {
            None
        }
    }

    /// The index of a cell of the grid.
    pub fn point2d_to_index(&self, pt: Point) -> (idx: usize)
        requires
            in_grid(pt.x as int, pt.y as int),
        ensures
            idx == index_of(pt.x as int, pt.y as int),
            idx < NUM_TILES,
            point_of(idx as int) == pt,
    {
        let bounds = self.dimensions();
        assert(pt.y * bounds.x == pt.y * 80) by (nonlinear_arith)
            requires
                bounds.x == 80,
        ;
        (pt.y * bounds.x + pt.x) as usize
    }

    /// The cell that `idx` stands for. The row of `idx` must fit an
    /// `i32`, as that of every index of the grid does.
    pub fn index_to_point2d(&self, idx: usize) -> (pt: Point)
        requires
            idx / 80 <= i32::MAX,
        ensures
            pt == point_of(idx as int),
            idx < NUM_TILES ==> in_grid(pt.x as int, pt.y as int) && index_of(
                pt.x as int,
                pt.y as int,
            ) == idx,
    {
        let w: usize = 80;
        let column = idx % w;
        let row = idx / w;
        Point { x: column as i32, y: row as i32 }
    }

    /// Width and height of the grid, as a point.
    pub fn dimensions(&self) -> (size: Point)
        ensures
            size == (Point { x: SCREEN_WIDTH, y: SCREEN_HEIGHT }),
    {
        Point { x: SCREEN_WIDTH, y: SCREEN_HEIGHT }
    }

    /// The indices of the tiles that a creature at `idx` may step to: its
    /// walkable orthogonal neighbours, west, east, north, south. The row
    /// of `idx` must fit an `i32`.
    pub fn get_available_exits(&self, idx: usize) -> (found: Vec<usize>)
        requires
            self.wf(),
            idx / 80 <= i32::MAX,
        ensures
            found@ == self.exits(idx as int),
            found@.len() <= 4,
    {
        let mut found: Vec<usize> = Vec::new();
        let location = self.index_to_point2d(idx);
        if let Some(exit) = self.valid_exit(location, Point { x: -1, y: 0 }) {
            found.push(exit);
        }
        if let Some(exit) = self.valid_exit(location, Point { x: 1, y: 0 }) {
            found.push(exit);
        }
        if let Some(exit) = self.valid_exit(location, Point { x: 0, y: -1 }) {
            found.push(exit);
        }
        if let Some(exit) = self.valid_exit(location, Point { x: 0, y: 1 }) {
            found.push(exit);
        }
        found
    }

    /// Whether the tile at `idx` blocks sight: every tile but floor does.
    pub fn is_opaque(&self, idx: usize) -> (opaque: bool)
        requires
            idx < self.tiles@.len(),
        ensures
            opaque == (self.tiles@[idx as int] != TileType::Floor),
    {
        self.tiles[idx] != TileType::Floor
    }
}

/// The sequence of the value that `item` holds, if any.
pub open spec fn some_seq(item: Option<usize>) -> Seq<usize> {
    match item {
        Some(value) => seq![value],
        None => Seq::empty(),
    }
}

} // verus!
