//! The level builder: it carves a level of rooms and corridors with the
//! dice, checks that the level can be played, and builds another where it
//! cannot.

pub mod reach;
pub mod themes;

use crate::map::{in_grid, index_of, walkable, GridMap, Point, TileType, NUM_TILES};
use crate::map_builder::reach::{
    connected, explore, is_connected, lemma_one_more, lemma_within_grid, open_at, reachable,
    tiles_within, within,
};
use crate::map_builder::themes::{DungeonTheme, ForestTheme, Theme};
use crate::random::roll_dice;
use bracket_lib::prelude::RandomNumberGenerator;
use vstd::prelude::*;

verus! {

/// The goal of a level lies more than this many steps from the start.
pub const MIN_SEPARATION: usize = 10;

/// How many rooms a level is carved from.
pub const NUM_ROOMS: usize = 20;

/// How many monsters and items a level holds at most.
pub const NUM_SPAWNS: usize = 50;

/// How many levels are carved and checked before the plain level is
/// taken.
pub const MAX_ATTEMPTS: usize = 16;

/// How many places are drawn at most in search of places to spawn at.
pub const MAX_DRAWS: usize = 2000;

/// A level: its grid, and where the player, the goal and the monsters and
/// items start.
pub struct MapBuilder {
    pub map: GridMap,
    pub player_start: Point,
    pub amulet_start: Point,
    pub monster_spawns: Vec<Point>,
    pub theme: Theme,
}

/// The index of the tile at `point`.
pub open spec fn tile_of(point: Point) -> int {
    index_of(point.x as int, point.y as int)
}

/// Whether the places to spawn at are walkable tiles of the grid, none of
/// them the player's start, and no two of them the same.
pub open spec fn spawns_apart(tiles: Seq<TileType>, spawns: Seq<Point>, start: Point) -> bool {
    &&& forall|i: int|
        0 <= i < spawns.len() ==> in_grid((#[trigger] spawns[i]).x as int, spawns[i].y as int)
            && open_at(tiles, tile_of(spawns[i])) && spawns[i] != start
    &&& forall|i: int, j: int| 0 <= i < j < spawns.len() ==> spawns[i] != spawns[j]
}

/// Steps in columns and rows between two tiles, walls or none.
pub open spec fn apart(a: int, b: int) -> int {
    (if a % 80 <= b % 80 {
        b % 80 - a % 80
    } else {
        a % 80 - b % 80
    }) + (if a / 80 <= b / 80 {
        b / 80 - a / 80
    } else {
        a / 80 - b / 80
    })
}

/// A step to a neighbour in the same row covers one column.
proof fn lemma_step_in_row(from: int, to: int, next: int)
    requires
        0 <= from,
        0 <= to,
        0 <= next,
        (to % 80 > 0 && next == to - 1) || (to % 80 < 79 && next == to + 1),
    ensures
        apart(from, to) <= apart(from, next) + 1,
{
    assert(next / 80 == to / 80);
    assert(next % 80 == to % 80 - 1 || next % 80 == to % 80 + 1);
}

/// A step to a neighbour in the same column covers one row.
proof fn lemma_step_in_column(from: int, to: int, next: int)
    requires
        0 <= from,
        0 <= to,
        0 <= next,
        next == to - 80 || next == to + 80,
    ensures
        apart(from, to) <= apart(from, next) + 1,
{
    assert(next % 80 == to % 80);
    assert(next / 80 == to / 80 - 1 || next / 80 == to / 80 + 1);
}

/// A walk is no shorter than the steps in columns and rows that it
/// covers.
pub proof fn lemma_within_apart(tiles: Seq<TileType>, from: int, to: int, steps: nat)
    requires
        within(tiles, from, to, steps),
    ensures
        apart(from, to) <= steps,
    decreases steps,
{
    lemma_within_grid(tiles, from, to, steps);
    if steps > 0 {
        let fewer = (steps - 1) as nat;
        if within(tiles, from, to, fewer) {
            lemma_within_apart(tiles, from, to, fewer);
        } else if to % 80 > 0 && within(tiles, from, to - 1, fewer) {
            lemma_within_apart(tiles, from, to - 1, fewer);
            lemma_step_in_row(from, to, to - 1);
        } else if to % 80 < 79 && within(tiles, from, to + 1, fewer) {
            lemma_within_apart(tiles, from, to + 1, fewer);
            lemma_step_in_row(from, to, to + 1);
        } else if to >= 80 && within(tiles, from, to - 80, fewer) {
            lemma_within_apart(tiles, from, to - 80, fewer);
            lemma_step_in_column(from, to, to - 80);
        } else {
            lemma_within_apart(tiles, from, to + 80, fewer);
            lemma_step_in_column(from, to, to + 80);
        }
    }
}

/// On a grid without walls every tile is within its column and row
/// together of the first tile.
pub proof fn lemma_open_grid(tiles: Seq<TileType>, to: int)
    requires
        tiles.len() == 4000,
        forall|i: int| 0 <= i < 4000 ==> walkable(#[trigger] tiles[i]),
        0 <= to < 4000,
    ensures
        within(tiles, 0, to, (to % 80 + to / 80) as nat),
    decreases to % 80 + to / 80,
{
    let steps = to % 80 + to / 80;
    if to == 0 {
    } else if to % 80 > 0 {
        lemma_open_grid(tiles, to - 1);
        lemma_one_more(tiles, 0, to, (steps - 1) as nat);
    } else {
        lemma_open_grid(tiles, to - 80);
        lemma_one_more(tiles, 0, to, (steps - 1) as nat);
    }
}

/// A room of a level: the rectangle of tiles from column `x` and row `y`,
/// `width` tiles wide and `height` tiles high.
#[derive(Clone, Copy, PartialEq, Eq, Structural, Debug)]
pub struct Room {
    pub x: i32,
    pub y: i32,
    pub width: i32,
    pub height: i32,
}

impl Room {
    /// Whether the room is 2 to 10 tiles wide and high and leaves a tile
    /// of the grid free on each side.
    pub open spec fn fits(self) -> bool {
        &&& 2 <= self.width <= 10
        &&& 2 <= self.height <= 10
        &&& 1 <= self.x
        &&& self.x + self.width <= 78
        &&& 1 <= self.y
        &&& self.y + self.height <= 48
    }

    /// Whether the tile in column `x` and row `y` lies in the room.
    pub open spec fn holds(self, x: int, y: int) -> bool {
        self.x <= x < self.x + self.width && self.y <= y < self.y + self.height
    }

    /// The tile in the middle of the room.
    pub open spec fn center(self) -> Point {
        Point { x: (self.x + self.width / 2) as i32, y: (self.y + self.height / 2) as i32 }
    }

    /// The tile in the middle of the room.
    pub fn middle(&self) -> (point: Point)
        requires
            self.fits(),
        ensures
            point == self.center(),
            self.holds(point.x as int, point.y as int),
    {
        Point { x: self.x + self.width / 2, y: self.y + self.height / 2 }
    }
}

/// Whether the tile in column `x` and row `y` lies on the corridor from
/// `from` to `to`: along the row of `from` to the column of `to`, and
/// along that column to `to`.
pub open spec fn on_corridor(from: Point, to: Point, x: int, y: int) -> bool {
    ||| (y == from.y && ((from.x <= x <= to.x) || (to.x <= x <= from.x)))
    ||| (x == to.x && ((from.y <= y <= to.y) || (to.y <= y <= from.y)))
}

/// Whether the room of index `k`, or the corridor to it from the room
/// before, covers the tile in column `x` and row `y`.
pub open spec fn dug_by(rooms: Seq<Room>, k: int, x: int, y: int) -> bool {
    rooms[k].holds(x, y) || (k > 0 && on_corridor(rooms[k - 1].center(), rooms[k].center(), x, y))
}

/// Whether one of the first `n` rooms, or a corridor between two of them
/// that follow one another, covers the tile in column `x` and row `y`.
pub open spec fn dug_upto(rooms: Seq<Room>, n: int, x: int, y: int) -> bool {
    exists|k: int| 0 <= k < n && #[trigger] dug_by(rooms, k, x, y)
}

/// Whether the grid is the one that `rooms` are carved in: a tile is
/// floor where a room or a corridor from a room to the next covers it,
/// and wall elsewhere.
pub open spec fn carved_in(tiles: Seq<TileType>, rooms: Seq<Room>) -> bool {
    tiles.len() == 4000 && forall|i: int|
        0 <= i < 4000 ==> #[trigger] tiles[i] == if dug_upto(
            rooms,
            rooms.len() as int,
            i % 80,
            i / 80,
        ) {
            TileType::Floor
        } else {
            TileType::Wall
        }
}

/// Whether the tile in column `x` and row `y` is a walkable tile of the
/// grid.
pub open spec fn open_tile(tiles: Seq<TileType>, x: int, y: int) -> bool {
    in_grid(x, y) && open_at(tiles, index_of(x, y))
}

/// Whether every tile from column `west` to `east` and from row `north`
/// to `south` is a walkable tile of the grid.
pub open spec fn open_block(
    tiles: Seq<TileType>,
    west: int,
    north: int,
    east: int,
    south: int,
) -> bool {
    forall|x: int, y: int|
        west <= x <= east && north <= y <= south ==> #[trigger] open_tile(tiles, x, y)
}

/// Steps in columns and rows from one tile to another.
pub open spec fn steps_apart(ax: int, ay: int, x: int, y: int) -> int {
    (if ax <= x {
        x - ax
    } else {
        ax - x
    }) + (if ay <= y {
        y - ay
    } else {
        ay - y
    })
}

/// Within a block of walkable tiles, every tile can be walked to from
/// where one of them can.
pub proof fn lemma_walk_in_block(
    tiles: Seq<TileType>,
    from: int,
    west: int,
    north: int,
    east: int,
    south: int,
    ax: int,
    ay: int,
    x: int,
    y: int,
)
    requires
        open_block(tiles, west, north, east, south),
        west <= ax <= east,
        north <= ay <= south,
        west <= x <= east,
        north <= y <= south,
        reachable(tiles, from, index_of(ax, ay)),
    ensures
        reachable(tiles, from, index_of(x, y)),
    decreases steps_apart(ax, ay, x, y),
{
    if x == ax && y == ay {
    } else {
        let (nx, ny) = if x < ax {
            (x + 1, y)
        } else if x > ax {
            (x - 1, y)
        } else if y < ay {
            (x, y + 1)
        } else {
            (x, y - 1)
        };
        lemma_walk_in_block(tiles, from, west, north, east, south, ax, ay, nx, ny);
        assert(open_tile(tiles, x, y));
        assert(open_tile(tiles, nx, ny));
        let to = index_of(x, y);
        let near = index_of(nx, ny);
        assert(to % 80 == x && to / 80 == y);
        let steps = choose|steps: nat| within(tiles, from, near, steps);
        lemma_one_more(tiles, from, to, steps);
        assert(within(tiles, from, to, (steps + 1) as nat));
    }
}

/// The middle of a room that fits lies in the room, on the grid.
pub proof fn lemma_center_in_room(room: Room)
    requires
        room.fits(),
    ensures
        room.holds(room.center().x as int, room.center().y as int),
        room.center().x == room.x + room.width / 2,
        room.center().y == room.y + room.height / 2,
        1 <= room.center().x <= 77,
        1 <= room.center().y <= 47,
{
}

/// In the grid that rooms are carved in, every tile that one of the first
/// `n` rooms or a corridor between them covers can be walked to from the
/// middle of the first room.
pub proof fn lemma_rooms_reached(tiles: Seq<TileType>, rooms: Seq<Room>, n: int, x: int, y: int)
    requires
        carved_in(tiles, rooms),
        forall|k: int| 0 <= k < rooms.len() ==> (#[trigger] rooms[k]).fits(),
        1 <= n <= rooms.len(),
        dug_upto(rooms, n, x, y),
    ensures
        in_grid(x, y),
        reachable(tiles, tile_of(rooms[0].center()), index_of(x, y)),
    decreases n,
{
    let from = tile_of(rooms[0].center());
    let k = choose|k: int| 0 <= k < n && #[trigger] dug_by(rooms, k, x, y);
    let room = rooms[k];
    assert(room.fits());
    lemma_center_in_room(room);
    let cx = room.center().x as int;
    let cy = room.center().y as int;
    lemma_room_open(tiles, rooms, k);
    if k == 0 {
        lemma_center_in_room(rooms[0]);
        assert(open_tile(tiles, cx, cy));
        assert(within(tiles, from, from, 0));
        lemma_walk_in_block(
            tiles,
            from,
            room.x as int,
            room.y as int,
            room.x + room.width - 1,
            room.y + room.height - 1,
            cx,
            cy,
            x,
            y,
        );
    } else {
        let last = rooms[k - 1];
        assert(last.fits());
        lemma_center_in_room(last);
        let px = last.center().x as int;
        let py = last.center().y as int;
        assert(dug_by(rooms, k - 1, px, py));
        assert(dug_upto(rooms, k, px, py));
        lemma_rooms_reached(tiles, rooms, k, px, py);
        let west = if px <= cx {
            px
        } else {
            cx
        };
        let east = if px <= cx {
            cx
        } else {
            px
        };
        let north = if py <= cy {
            py
        } else {
            cy
        };
        let south = if py <= cy {
            cy
        } else {
            py
        };
        lemma_corridor_open(tiles, rooms, k);
        if room.holds(x, y) {
            lemma_walk_in_block(tiles, from, west, py, east, py, px, py, cx, py);
            lemma_walk_in_block(tiles, from, cx, north, cx, south, cx, py, cx, cy);
            lemma_walk_in_block(
                tiles,
                from,
                room.x as int,
                room.y as int,
                room.x + room.width - 1,
                room.y + room.height - 1,
                cx,
                cy,
                x,
                y,
            );
        } else if y == py && west <= x <= east {
            lemma_walk_in_block(tiles, from, west, py, east, py, px, py, x, y);
        } else {
            lemma_walk_in_block(tiles, from, west, py, east, py, px, py, cx, py);
            lemma_walk_in_block(tiles, from, cx, north, cx, south, cx, py, x, y);
        }
    }
}

/// In the grid that rooms are carved in, the tiles of each room are
/// walkable.
pub proof fn lemma_room_open(tiles: Seq<TileType>, rooms: Seq<Room>, k: int)
    requires
        carved_in(tiles, rooms),
        0 <= k < rooms.len(),
        rooms[k].fits(),
    ensures
        open_block(
            tiles,
            rooms[k].x as int,
            rooms[k].y as int,
            rooms[k].x + rooms[k].width - 1,
            rooms[k].y + rooms[k].height - 1,
        ),
{
    let room = rooms[k];
    assert forall|x: int, y: int|
        room.x <= x <= room.x + room.width - 1 && room.y <= y <= room.y + room.height
            - 1 implies #[trigger] open_tile(tiles, x, y) by {
        lemma_dug_open(tiles, rooms, k, x, y);
    }
}

/// In the grid that rooms are carved in, the tiles of the corridor to a
/// room from the room before are walkable.
pub proof fn lemma_corridor_open(tiles: Seq<TileType>, rooms: Seq<Room>, k: int)
    requires
        carved_in(tiles, rooms),
        0 < k < rooms.len(),
        rooms[k].fits(),
        rooms[k - 1].fits(),
    ensures
        ({
            let from = rooms[k - 1].center();
            let to = rooms[k].center();
            let west = if from.x <= to.x {
                from.x
            } else {
                to.x
            };
            let east = if from.x <= to.x {
                to.x
            } else {
                from.x
            };
            let north = if from.y <= to.y {
                from.y
            } else {
                to.y
            };
            let south = if from.y <= to.y {
                to.y
            } else {
                from.y
            };
            open_block(tiles, west as int, from.y as int, east as int, from.y as int)
                && open_block(tiles, to.x as int, north as int, to.x as int, south as int)
        }),
{
    let from = rooms[k - 1].center();
    let to = rooms[k].center();
    lemma_center_in_room(rooms[k - 1]);
    lemma_center_in_room(rooms[k]);
    assert forall|x: int, y: int|
        y == from.y && ((from.x <= x <= to.x) || (to.x <= x <= from.x)) implies #[trigger] open_tile(
        tiles,
        x,
        y,
    ) by {
        lemma_dug_open(tiles, rooms, k, x, y);
    }
    assert forall|x: int, y: int|
        x == to.x && ((from.y <= y <= to.y) || (to.y <= y <= from.y)) implies #[trigger] open_tile(
        tiles,
        x,
        y,
    ) by {
        lemma_dug_open(tiles, rooms, k, x, y);
    }
}

/// In the grid that rooms are carved in, a tile of the grid that a room
/// or a corridor covers is walkable.
pub proof fn lemma_dug_open(tiles: Seq<TileType>, rooms: Seq<Room>, k: int, x: int, y: int)
    requires
        carved_in(tiles, rooms),
        0 <= k < rooms.len(),
        dug_by(rooms, k, x, y),
        in_grid(x, y),
    ensures
        open_tile(tiles, x, y),
{
    let i = index_of(x, y);
    assert(i % 80 == x && i / 80 == y);
    assert(dug_upto(rooms, rooms.len() as int, i % 80, i / 80));
    assert(tiles[i] == TileType::Floor);
}

/// The grid that rooms are carved in is connected: every walkable tile
/// can be walked to from the middle of the first room.
pub proof fn lemma_carved_connected(tiles: Seq<TileType>, rooms: Seq<Room>)
    requires
        carved_in(tiles, rooms),
        rooms.len() > 0,
        forall|k: int| 0 <= k < rooms.len() ==> (#[trigger] rooms[k]).fits(),
    ensures
        connected(tiles, tile_of(rooms[0].center())),
{
    let from = tile_of(rooms[0].center());
    assert forall|to: int| open_at(tiles, to) implies reachable(tiles, from, to) by {
        assert(tiles[to] != TileType::Wall);
        assert(dug_upto(rooms, rooms.len() as int, to % 80, to / 80));
        lemma_rooms_reached(tiles, rooms, rooms.len() as int, to % 80, to / 80);
        assert(index_of(to % 80, to / 80) == to);
    }
}

/// Whether the tile `to` can be walked to from `from`, and no tile that
/// can be walked to from there is more steps away.
pub open spec fn farthest(tiles: Seq<TileType>, from: int, to: int) -> bool {
    exists|steps: nat| #[trigger] farthest_at(tiles, from, to, steps)
}

/// Whether the tile `to` is `steps` steps from `from` and no fewer, and
/// every tile that can be walked to from there is within as many.
pub open spec fn farthest_at(tiles: Seq<TileType>, from: int, to: int, steps: nat) -> bool {
    &&& within(tiles, from, to, steps)
    &&& steps > 0 ==> !within(tiles, from, to, (steps - 1) as nat)
    &&& forall|other: int| reachable(tiles, from, other) ==> within(tiles, from, other, steps)
}

/// Whether `spot` is taken as a place to spawn at, after `spawns`: it is
/// a walkable tile of the grid, it is neither the start nor the goal, and
/// it is not among `spawns`.
pub open spec fn accepts(
    tiles: Seq<TileType>,
    start: Point,
    goal: Point,
    spawns: Seq<Point>,
    spot: Point,
) -> bool {
    &&& in_grid(spot.x as int, spot.y as int)
    &&& open_at(tiles, tile_of(spot))
    &&& spot != start
    &&& spot != goal
    &&& !spawns.contains(spot)
}

/// Whether none of `spawns` is `goal`.
pub open spec fn off_goal(spawns: Seq<Point>, goal: Point) -> bool {
    forall|i: int| 0 <= i < spawns.len() ==> #[trigger] spawns[i] != goal
}

/// A place that is taken keeps the places apart.
pub proof fn lemma_spawn_placed(
    tiles: Seq<TileType>,
    start: Point,
    goal: Point,
    spawns: Seq<Point>,
    spot: Point,
)
    requires
        spawns_apart(tiles, spawns, start),
        off_goal(spawns, goal),
        accepts(tiles, start, goal, spawns, spot),
    ensures
        spawns_apart(tiles, spawns.push(spot), start),
        off_goal(spawns.push(spot), goal),
{
    let longer = spawns.push(spot);
    assert forall|i: int| 0 <= i < longer.len() implies in_grid(
        (#[trigger] longer[i]).x as int,
        longer[i].y as int,
    ) && open_at(tiles, tile_of(longer[i])) && longer[i] != start by {
        if i < spawns.len() {
            assert(longer[i] == spawns[i]);
        }
    }
    assert forall|i: int, j: int| 0 <= i < j < longer.len() implies longer[i] != longer[j] by {
        assert(longer[i] == spawns[i]);
        if j < spawns.len() {
            assert(longer[j] == spawns[j]);
        } else {
            assert(spawns.contains(spawns[i]));
        }
    }
    assert forall|i: int| 0 <= i < longer.len() implies #[trigger] longer[i] != goal by {
        if i < spawns.len() {
            assert(longer[i] == spawns[i]);
        }
    }
}

impl MapBuilder {
    /// Whether the level can be played: every walkable tile, the goal
    /// among them, can be walked to from the player's start; the goal
    /// lies more than [`MIN_SEPARATION`] steps from the start; the places
    /// to spawn at are walkable, apart from the start and from one
    /// another; and no tile is an exit or has been seen yet.
    pub open spec fn valid(&self) -> bool {
        &&& self.map.wf()
        &&& self.map.unseen()
        &&& in_grid(self.player_start.x as int, self.player_start.y as int)
        &&& in_grid(self.amulet_start.x as int, self.amulet_start.y as int)
        &&& forall|i: int| 0 <= i < 4000 ==> self.map.tiles@[i] != TileType::Exit
        &&& open_at(self.map.tiles@, tile_of(self.player_start))
        &&& open_at(self.map.tiles@, tile_of(self.amulet_start))
        &&& connected(self.map.tiles@, tile_of(self.player_start))
        &&& !within(
            self.map.tiles@,
            tile_of(self.player_start),
            tile_of(self.amulet_start),
            MIN_SEPARATION as nat,
        )
        &&& spawns_apart(self.map.tiles@, self.monster_spawns@, self.player_start)
    }

    /// Whether the level is the one that `rooms` are carved in, with the
    /// player in the middle of the first room and no tile revealed.
    pub open spec fn carved_from(&self, rooms: Seq<Room>) -> bool {
        &&& rooms.len() == NUM_ROOMS
        &&& forall|k: int| 0 <= k < rooms.len() ==> (#[trigger] rooms[k]).fits()
        &&& carved_in(self.map.tiles@, rooms)
        &&& self.map.revealed_tiles@.len() == 4000
        &&& self.map.unseen()
        &&& self.player_start == rooms[0].center()
    }

    /// Builds a level. It carves levels with `rng` until one can be
    /// played, [`MAX_ATTEMPTS`] times at most, and takes the plain level
    /// without walls after that.
    pub fn new(rng: &mut RandomNumberGenerator) -> (level: MapBuilder)
        ensures
            level.valid(),
            connected(level.map.tiles@, tile_of(level.player_start)),
            reachable(level.map.tiles@, tile_of(level.player_start), tile_of(level.amulet_start)),
            level.player_start != level.amulet_start,
            spawns_apart(level.map.tiles@, level.monster_spawns@, level.player_start),
            level.monster_spawns@.len() <= NUM_SPAWNS,
            level.map.unseen(),
            forall|i: int| 0 <= i < 4000 ==> level.map.tiles@[i] != TileType::Exit,
    {
        let mut attempt: usize = 0;
        while attempt < MAX_ATTEMPTS
            invariant
                attempt <= MAX_ATTEMPTS,
            decreases MAX_ATTEMPTS - attempt,
        {
            let level = MapBuilder::carve_level(rng);
            if level.validate() {
                proof {
                    level.lemma_goal_apart();
                }
                return level;
            }
            attempt += 1;
        }
        let level = MapBuilder::plain();
        proof {
            level.lemma_goal_apart();
        }
        level
    }

    /// In a level that can be played the goal can be walked to and is not
    /// the start.
    pub proof fn lemma_goal_apart(&self)
        requires
            self.valid(),
        ensures
            reachable(self.map.tiles@, tile_of(self.player_start), tile_of(self.amulet_start)),
            self.player_start != self.amulet_start,
    {
        let tiles = self.map.tiles@;
        let start = tile_of(self.player_start);
        if self.player_start == self.amulet_start {
            assert(within(tiles, start, start, 0));
            reach::lemma_within_more(tiles, start, start, 0, MIN_SEPARATION as nat);
        }
    }

    /// Whether the level can be played.
    pub fn validate(&self) -> (ok: bool)
        ensures
            ok == self.valid(),
    {
        if self.map.tiles.len() != NUM_TILES || self.map.revealed_tiles.len() != NUM_TILES {
            return false;
        }
        if !self.map.in_bounds(self.player_start) || !self.map.in_bounds(self.amulet_start) {
            return false;
        }
        let start = self.map.point2d_to_index(self.player_start);
        let goal = self.map.point2d_to_index(self.amulet_start);
        let mut i: usize = 0;
        while i < NUM_TILES
            invariant
                i <= NUM_TILES,
                self.map.wf(),
                forall|j: int| 0 <= j < i ==> self.map.tiles@[j] != TileType::Exit,
                forall|j: int| 0 <= j < i ==> !self.map.revealed_tiles@[j],
            decreases NUM_TILES - i,
        {
            if self.map.tiles[i] == TileType::Exit || self.map.revealed_tiles[i] {
                return false;
            }
            i += 1;
        }
        if self.map.tiles[start] != TileType::Floor || self.map.tiles[goal] != TileType::Floor {
            return false;
        }
        if !is_connected(&self.map, start) {
            return false;
        }
        let near = tiles_within(&self.map, start, MIN_SEPARATION);
        if near[goal] {
            return false;
        }
        self.spawns_valid()
    }

    /// Whether the places to spawn at are walkable tiles of the grid,
    /// apart from the start and from one another.
    fn spawns_valid(&self) -> (ok: bool)
        requires
            self.map.wf(),
        ensures
            ok == spawns_apart(self.map.tiles@, self.monster_spawns@, self.player_start),
    {
        let n = self.monster_spawns.len();
        let mut i: usize = 0;
        while i < n
            invariant
                i <= n,
                n == self.monster_spawns@.len(),
                self.map.wf(),
                spawns_apart(
                    self.map.tiles@,
                    self.monster_spawns@.take(i as int),
                    self.player_start,
                ),
            decreases n - i,
        {
            let spawn = self.monster_spawns[i];
            if !self.map.can_enter_tile(spawn) || spawn == self.player_start {
                return false;
            }
            let mut j: usize = 0;
            while j < i
                invariant
                    j <= i,
                    i < n,
                    n == self.monster_spawns@.len(),
                    spawn == self.monster_spawns@[i as int],
                    forall|k: int| 0 <= k < j ==> self.monster_spawns@[k] != spawn,
                decreases i - j,
            {
                if self.monster_spawns[j] == spawn {
                    return false;
                }
                j += 1;
            }
            proof {
                let before = self.monster_spawns@.take(i as int);
                let now = self.monster_spawns@.take(i + 1);
                assert forall|k: int| 0 <= k < now.len() implies in_grid(
                    (#[trigger] now[k]).x as int,
                    now[k].y as int,
                ) && open_at(self.map.tiles@, tile_of(now[k])) && now[k] != self.player_start by {
                    if k < i {
                        assert(before[k] == now[k]);
                    }
                }
                assert forall|k: int, l: int| 0 <= k < l < now.len() implies now[k] != now[l] by {
                    if l < i {
                        assert(before[k] == now[k] && before[l] == now[l]);
                    }
                }
            }
            i += 1;
        }
        assert(self.monster_spawns@.take(n as int) == self.monster_spawns@);
        true
    }

    /// The plain level: a grid without walls, the player in the first
    /// corner, the goal in the last, and a row of places to spawn at.
    pub fn plain() -> (level: MapBuilder)
        ensures
            level.valid(),
            level.player_start == (Point { x: 0, y: 0 }),
            level.amulet_start == (Point { x: 79, y: 49 }),
            level.monster_spawns@.len() == NUM_SPAWNS,
            level.map.unseen(),
            forall|i: int| 0 <= i < 4000 ==> level.map.tiles@[i] == TileType::Floor,
    {
        let map = GridMap::new();
        let mut monster_spawns: Vec<Point> = Vec::new();
        let mut i: usize = 0;
        while i < NUM_SPAWNS
            invariant
                i <= NUM_SPAWNS,
                monster_spawns@.len() == i,
                forall|j: int|
                    0 <= j < i ==> (#[trigger] monster_spawns@[j]) == (Point {
                        x: (15 + j) as i32,
                        y: 25,
                    }),
            decreases NUM_SPAWNS - i,
        {
            monster_spawns.push(Point { x: 15 + i as i32, y: 25 });
            i += 1;
        }
        let level = MapBuilder {
            map,
            player_start: Point { x: 0, y: 0 },
            amulet_start: Point { x: 79, y: 49 },
            monster_spawns,
            theme: DungeonTheme::new(),
        };
        proof {
            let tiles = level.map.tiles@;
            assert forall|to: int| open_at(tiles, to) implies reachable(tiles, 0, to) by {
                lemma_open_grid(tiles, to);
            }
            if within(tiles, 0, 3999, MIN_SEPARATION as nat) {
                lemma_within_apart(tiles, 0, 3999, MIN_SEPARATION as nat);
            }
            assert forall|k: int| 0 <= k < level.monster_spawns@.len() implies in_grid(
                (#[trigger] level.monster_spawns@[k]).x as int,
                level.monster_spawns@[k].y as int,
            ) && open_at(tiles, tile_of(level.monster_spawns@[k])) && level.monster_spawns@[k]
                != level.player_start by {}
        }
        level
    }

    /// Carves a level with `rng`. The dice decide on the rooms, on the
    /// places to spawn at and on the theme. Whatever they give, the grid
    /// is the one that [`NUM_ROOMS`] fitting rooms are carved in, with a
    /// corridor from each room to the next, so that every walkable tile
    /// can be walked to from the middle of the first room; the player
    /// starts there; the goal is a tile that is as many steps from there
    /// as any; and the places to spawn at are walkable tiles apart from
    /// the start, from the goal and from one another.
    fn carve_level(rng: &mut RandomNumberGenerator) -> (level: MapBuilder)
        ensures
            level.map.wf(),
            level.map.unseen(),
            exists|rooms: Seq<Room>| #[trigger] level.carved_from(rooms),
            in_grid(level.player_start.x as int, level.player_start.y as int),
            in_grid(level.amulet_start.x as int, level.amulet_start.y as int),
            open_at(level.map.tiles@, tile_of(level.player_start)),
            connected(level.map.tiles@, tile_of(level.player_start)),
            farthest(level.map.tiles@, tile_of(level.player_start), tile_of(level.amulet_start)),
            spawns_apart(level.map.tiles@, level.monster_spawns@, level.player_start),
            off_goal(level.monster_spawns@, level.amulet_start),
            level.monster_spawns@.len() <= NUM_SPAWNS,
    {
        let rooms = draw_rooms(rng);
        let mut map = GridMap::new();
        fill(&mut map, TileType::Wall);
        carve_rooms(&mut map, &rooms);
        let player_start = rooms[0].middle();
        let start = map.point2d_to_index(player_start);
        proof {
            assert(dug_by(rooms@, 0, player_start.x as int, player_start.y as int));
            assert(map.tiles@[start as int] == TileType::Floor);
        }
        let found = explore(&map, start);
        let amulet_start = map.index_to_point2d(found.farthest);
        let monster_spawns = draw_spawns(&map, player_start, amulet_start, rng);
        let theme = if roll_dice(rng, 1, 2) == 1 {
            DungeonTheme::new()
        } else {
            ForestTheme::new()
        };
        let level = MapBuilder { map, player_start, amulet_start, monster_spawns, theme };
        proof {
            assert(farthest_at(
                level.map.tiles@,
                start as int,
                found.farthest as int,
                found.distance as nat,
            ));
            assert(level.carved_from(rooms@));
            lemma_carved_connected(level.map.tiles@, rooms@);
        }
        level
    }
}

/// Draws [`NUM_ROOMS`] rooms with `rng`: each 2 to 10 tiles wide and high,
/// at a place where it fits.
fn draw_rooms(rng: &mut RandomNumberGenerator) -> (rooms: Vec<Room>)
    ensures
        rooms@.len() == NUM_ROOMS,
        forall|k: int| 0 <= k < rooms@.len() ==> (#[trigger] rooms@[k]).fits(),
{
    let mut rooms: Vec<Room> = Vec::new();
    while rooms.len() < NUM_ROOMS
        invariant
            rooms@.len() <= NUM_ROOMS,
            forall|k: int| 0 <= k < rooms@.len() ==> (#[trigger] rooms@[k]).fits(),
        decreases NUM_ROOMS - rooms@.len(),
    {
        let width = 1 + roll_dice(rng, 1, 9);
        let height = 1 + roll_dice(rng, 1, 9);
        let x = roll_dice(rng, 1, 78 - width);
        let y = roll_dice(rng, 1, 48 - height);
        rooms.push(Room { x, y, width, height });
    }
    rooms
}

/// Carves `rooms` into the map, and a corridor from each room to the
/// next: every tile that they cover becomes floor, and no other tile
/// changes.
pub fn carve_rooms(map: &mut GridMap, rooms: &Vec<Room>)
    requires
        old(map).wf(),
        forall|k: int| 0 <= k < rooms@.len() ==> (#[trigger] rooms@[k]).fits(),
    ensures
        final(map).wf(),
        final(map).revealed_tiles@ == old(map).revealed_tiles@,
        forall|i: int|
            0 <= i < 4000 ==> #[trigger] final(map).tiles@[i] == if dug_upto(
                rooms@,
                rooms@.len() as int,
                i % 80,
                i / 80,
            ) {
                TileType::Floor
            } else {
                old(map).tiles@[i]
            },
{
    let mut k: usize = 0;
    while k < rooms.len()
        invariant
            k <= rooms@.len(),
            map.wf(),
            map.revealed_tiles@ == old(map).revealed_tiles@,
            forall|j: int| 0 <= j < rooms@.len() ==> (#[trigger] rooms@[j]).fits(),
            forall|i: int|
                0 <= i < 4000 ==> #[trigger] map.tiles@[i] == if dug_upto(
                    rooms@,
                    k as int,
                    i % 80,
                    i / 80,
                ) {
                    TileType::Floor
                } else {
                    old(map).tiles@[i]
                },
        decreases rooms@.len() - k,
    {
        let room = rooms[k];
        let ghost before = map.tiles@;
        carve(map, room.x, room.y, room.x + room.width - 1, room.y + room.height - 1);
        if k > 0 {
            let from = rooms[k - 1].middle();
            let to = room.middle();
            let (west, east) = if from.x <= to.x {
                (from.x, to.x)
            } else {
                (to.x, from.x)
            };
            let (north, south) = if from.y <= to.y {
                (from.y, to.y)
            } else {
                (to.y, from.y)
            };
            carve(map, west, from.y, east, from.y);
            carve(map, to.x, north, to.x, south);
        }
        proof {
            assert forall|i: int| 0 <= i < 4000 implies #[trigger] map.tiles@[i] == if dug_upto(
                rooms@,
                k + 1,
                i % 80,
                i / 80,
            ) {
                TileType::Floor
            } else {
                old(map).tiles@[i]
            } by {
                let x = i % 80;
                let y = i / 80;
                assert(map.tiles@[i] == if dug_by(rooms@, k as int, x, y) {
                    TileType::Floor
                } else {
                    before[i]
                });
                if dug_upto(rooms@, k as int, x, y) {
                    let earlier = choose|j: int| 0 <= j < k && #[trigger] dug_by(rooms@, j, x, y);
                    assert(dug_by(rooms@, earlier, x, y));
                }
                if dug_upto(rooms@, k + 1, x, y) {
                    let j = choose|j: int| 0 <= j < k + 1 && #[trigger] dug_by(rooms@, j, x, y);
                    if j < k {
                        assert(dug_upto(rooms@, k as int, x, y));
                    }
                }
            }
        }
        k += 1;
    }
}

/// Makes every tile of the map a `tile`.
pub fn fill(map: &mut GridMap, tile: TileType)
    requires
        old(map).wf(),
    ensures
        final(map).wf(),
        forall|i: int| 0 <= i < 4000 ==> final(map).tiles@[i] == tile,
        final(map).revealed_tiles@ == old(map).revealed_tiles@,
{
    let mut i: usize = 0;
    while i < NUM_TILES
        invariant
            i <= NUM_TILES,
            map.wf(),
            map.revealed_tiles@ == old(map).revealed_tiles@,
            forall|j: int| 0 <= j < i ==> map.tiles@[j] == tile,
        decreases NUM_TILES - i,
    {
        map.tiles.set(i, tile);
        i += 1;
    }
}

/// Makes floor of the tiles from column `west` to `east` and from row
/// `north` to `south`, the borders included.
pub fn carve(map: &mut GridMap, west: i32, north: i32, east: i32, south: i32)
    requires
        old(map).wf(),
        0 <= west <= east < 80,
        0 <= north <= south < 50,
    ensures
        final(map).wf(),
        forall|i: int|
            0 <= i < 4000 ==> final(map).tiles@[i] == if west <= i % 80 <= east && north <= i / 80
                <= south {
                TileType::Floor
            } else {
                old(map).tiles@[i]
            },
        final(map).revealed_tiles@ == old(map).revealed_tiles@,
{
    let mut y = north;
    while y <= south
        invariant
            north <= y <= south + 1,
            0 <= west <= east < 80,
            0 <= north <= south < 50,
            map.wf(),
            map.revealed_tiles@ == old(map).revealed_tiles@,
            forall|i: int|
                0 <= i < 4000 ==> map.tiles@[i] == if west <= i % 80 <= east && north <= i / 80
                    < y {
                    TileType::Floor
                } else {
                    old(map).tiles@[i]
                },
        decreases south + 1 - y,
    {
        let mut x = west;
        while x <= east
            invariant
                west <= x <= east + 1,
                north <= y <= south,
                0 <= west <= east < 80,
                0 <= north <= south < 50,
                map.wf(),
                map.revealed_tiles@ == old(map).revealed_tiles@,
                forall|i: int|
                    0 <= i < 4000 ==> map.tiles@[i] == if (west <= i % 80 <= east && north <= i
                        / 80 < y) || (i / 80 == y && west <= i % 80 < x) {
                        TileType::Floor
                    } else {
                        old(map).tiles@[i]
                    },
            decreases east + 1 - x,
        {
            let idx = map.point2d_to_index(Point { x, y });
            map.tiles.set(idx, TileType::Floor);
            x += 1;
        }
        y += 1;
    }
}

/// Draws places to spawn at with `rng`, [`MAX_DRAWS`] times at most, and
/// takes each that [`accepts`] allows, until there are [`NUM_SPAWNS`].
/// Whatever the dice give, the places are walkable tiles of the grid,
/// apart from the start, from the goal and from one another.
fn draw_spawns(map: &GridMap, start: Point, goal: Point, rng: &mut RandomNumberGenerator) -> (spawns:
    Vec<Point>)
    requires
        map.wf(),
    ensures
        spawns_apart(map.tiles@, spawns@, start),
        off_goal(spawns@, goal),
        spawns@.len() <= NUM_SPAWNS,
{
    let mut spawns: Vec<Point> = Vec::new();
    let mut draws: usize = 0;
    while draws < MAX_DRAWS && spawns.len() < NUM_SPAWNS
        invariant
            draws <= MAX_DRAWS,
            spawns@.len() <= NUM_SPAWNS,
            map.wf(),
            spawns_apart(map.tiles@, spawns@, start),
            off_goal(spawns@, goal),
        decreases MAX_DRAWS - draws,
    {
        let spot = Point { x: roll_dice(rng, 1, 80) - 1, y: roll_dice(rng, 1, 50) - 1 };
        let ghost earlier = spawns@;
        let placed = place_spawn(map, start, goal, &mut spawns, spot);
        proof {
            if placed {
                lemma_spawn_placed(map.tiles@, start, goal, earlier, spot);
            }
        }
        draws += 1;
    }
    spawns
}

/// Takes `spot` as a place to spawn at where [`accepts`] allows it, and
/// says whether it did.
pub fn place_spawn(
    map: &GridMap,
    start: Point,
    goal: Point,
    spawns: &mut Vec<Point>,
    spot: Point,
) -> (placed: bool)
    requires
        map.wf(),
    ensures
        placed == accepts(map.tiles@, start, goal, old(spawns)@, spot),
        final(spawns)@ == if placed {
            old(spawns)@.push(spot)
        } else {
            old(spawns)@
        },
{
    if map.can_enter_tile(spot) && spot != start && spot != goal && !holds(spawns, spot) {
        spawns.push(spot);
        true
    } else {
        false
    }
}

/// Whether `spot` is among `spots`.
fn holds(spots: &Vec<Point>, spot: Point) -> (found: bool)
    ensures
        found == spots@.contains(spot),
{
    let mut i: usize = 0;
    while i < spots.len()
        invariant
            i <= spots@.len(),
            forall|j: int| 0 <= j < i ==> spots@[j] != spot,
        decreases spots@.len() - i,
    {
        if spots[i] == spot {
            return true;
        }
        i += 1;
    }
    false
}

} // verus!
