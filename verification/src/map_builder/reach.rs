//! Which tiles can be walked to from a tile, and in how many steps.

use crate::map::{walkable, GridMap, TileType, NUM_TILES};
use vstd::prelude::*;

verus! {

/// Whether `idx` is a tile of the grid that a creature may stand on.
pub open spec fn open_at(tiles: Seq<TileType>, idx: int) -> bool {
    0 <= idx < 4000 && walkable(tiles[idx])
}

/// Whether the tile `to` can be walked to from the tile `from` in at most
/// `steps` steps, each to an orthogonal neighbour and over walkable tiles
/// only.
pub open spec fn within(tiles: Seq<TileType>, from: int, to: int, steps: nat) -> bool
    decreases steps,
{
    if steps == 0 {
        to == from && open_at(tiles, from)
    } else {
        let fewer = (steps - 1) as nat;
        within(tiles, from, to, fewer) || (open_at(tiles, to) && ((to % 80 > 0 && within(
            tiles,
            from,
            to - 1,
            fewer,
        )) || (to % 80 < 79 && within(tiles, from, to + 1, fewer)) || (to >= 80 && within(
            tiles,
            from,
            to - 80,
            fewer,
        )) || (to < 3920 && within(tiles, from, to + 80, fewer))))
    }
}

/// Whether the tile `to` is within `steps` steps of `from`, or is walkable
/// and has a neighbour that is.
pub open spec fn one_more(tiles: Seq<TileType>, from: int, to: int, steps: nat) -> bool {
    within(tiles, from, to, steps) || (open_at(tiles, to) && ((to % 80 > 0 && within(
        tiles,
        from,
        to - 1,
        steps,
    )) || (to % 80 < 79 && within(tiles, from, to + 1, steps)) || (to >= 80 && within(
        tiles,
        from,
        to - 80,
        steps,
    )) || (to < 3920 && within(tiles, from, to + 80, steps))))
}

/// One step more reaches a tile's walkable neighbours.
pub proof fn lemma_one_more(tiles: Seq<TileType>, from: int, to: int, steps: nat)
    ensures
        within(tiles, from, to, (steps + 1) as nat) == one_more(tiles, from, to, steps),
{
    assert(((steps + 1) as nat - 1) as nat == steps);
}

/// Whether the tile `to` can be walked to from the tile `from`.
pub open spec fn reachable(tiles: Seq<TileType>, from: int, to: int) -> bool {
    exists|steps: nat| within(tiles, from, to, steps)
}

/// Whether every walkable tile can be walked to from the tile `from`.
pub open spec fn connected(tiles: Seq<TileType>, from: int) -> bool {
    forall|to: int| open_at(tiles, to) ==> reachable(tiles, from, to)
}

/// Whether an orthogonal neighbour of the tile `idx` is marked.
pub open spec fn touches(marked: Seq<bool>, idx: int) -> bool {
    (idx % 80 > 0 && marked[idx - 1]) || (idx % 80 < 79 && marked[idx + 1]) || (idx >= 80
        && marked[idx - 80]) || (idx < 3920 && marked[idx + 80])
}

/// Whether `marked` holds exactly the tiles within `steps` steps of
/// `from`.
pub open spec fn marks_within(
    marked: Seq<bool>,
    tiles: Seq<TileType>,
    from: int,
    steps: nat,
) -> bool {
    marked.len() == 4000 && forall|to: int|
        0 <= to < 4000 ==> marked[to] == within(tiles, from, to, steps)
}

/// The number of marks among the first `n`.
pub open spec fn count_marked(marked: Seq<bool>, n: int) -> int
    decreases n,
{
    if n <= 0 {
        0
    } else {
        count_marked(marked, n - 1) + if marked[n - 1] {
            1int
        } else {
            0int
        }
    }
}

/// Only tiles of the grid are ever reached.
pub proof fn lemma_within_grid(tiles: Seq<TileType>, from: int, to: int, steps: nat)
    requires
        within(tiles, from, to, steps),
    ensures
        open_at(tiles, to),
        open_at(tiles, from),
    decreases steps,
{
    if steps > 0 {
        let fewer = (steps - 1) as nat;
        if within(tiles, from, to, fewer) {
            lemma_within_grid(tiles, from, to, fewer);
        } else if to % 80 > 0 && within(tiles, from, to - 1, fewer) {
            lemma_within_grid(tiles, from, to - 1, fewer);
        } else if to % 80 < 79 && within(tiles, from, to + 1, fewer) {
            lemma_within_grid(tiles, from, to + 1, fewer);
        } else if to >= 80 && within(tiles, from, to - 80, fewer) {
            lemma_within_grid(tiles, from, to - 80, fewer);
        } else {
            lemma_within_grid(tiles, from, to + 80, fewer);
        }
    }
}

/// A tile within some steps is within any larger number of steps.
pub proof fn lemma_within_more(tiles: Seq<TileType>, from: int, to: int, steps: nat, more: nat)
    requires
        within(tiles, from, to, steps),
        steps <= more,
    ensures
        within(tiles, from, to, more),
    decreases more - steps,
{
    if steps < more {
        lemma_within_more(tiles, from, to, steps, (more - 1) as nat);
    }
}

/// Once a further step reaches no new tile, no number of steps does.
pub proof fn lemma_settled(tiles: Seq<TileType>, from: int, steps: nat, more: nat)
    requires
        forall|to: int|
            0 <= to < 4000 ==> one_more(tiles, from, to, steps) == within(tiles, from, to, steps),
        steps <= more,
    ensures
        forall|to: int|
            0 <= to < 4000 ==> within(tiles, from, to, more) == within(tiles, from, to, steps),
    decreases more,
{
    if steps < more {
        let fewer = (more - 1) as nat;
        lemma_settled(tiles, from, steps, fewer);
        assert forall|to: int| 0 <= to < 4000 implies within(tiles, from, to, more) == within(
            tiles,
            from,
            to,
            steps,
        ) by {
            lemma_one_more(tiles, from, to, fewer);
            assert(within(tiles, from, to, fewer) == within(tiles, from, to, steps));
            if to % 80 > 0 {
                assert(within(tiles, from, to - 1, fewer) == within(tiles, from, to - 1, steps));
            }
            if to % 80 < 79 {
                assert(within(tiles, from, to + 1, fewer) == within(tiles, from, to + 1, steps));
            }
            if to >= 80 {
                assert(within(tiles, from, to - 80, fewer) == within(tiles, from, to - 80, steps));
            }
            if to < 3920 {
                assert(within(tiles, from, to + 80, fewer) == within(tiles, from, to + 80, steps));
            }
            assert(one_more(tiles, from, to, steps) == within(tiles, from, to, steps));
        }
    }
}

/// Spreading the marks of the tiles within some steps by one step gives
/// the marks of the tiles within one step more.
pub proof fn lemma_spread(
    marked: Seq<bool>,
    next: Seq<bool>,
    tiles: Seq<TileType>,
    from: int,
    steps: nat,
)
    requires
        marks_within(marked, tiles, from, steps),
        tiles.len() == 4000,
        next.len() == 4000,
        forall|i: int|
            0 <= i < 4000 ==> next[i] == (marked[i] || (walkable(tiles[i]) && touches(marked, i))),
    ensures
        marks_within(next, tiles, from, (steps + 1) as nat),
        forall|to: int| 0 <= to < 4000 ==> next[to] == one_more(tiles, from, to, steps),
{
    assert forall|to: int| 0 <= to < 4000 implies next[to] == one_more(tiles, from, to, steps) by {
        assert(marked[to] == within(tiles, from, to, steps));
        if to % 80 > 0 {
            assert(marked[to - 1] == within(tiles, from, to - 1, steps));
        }
        if to % 80 < 79 {
            assert(marked[to + 1] == within(tiles, from, to + 1, steps));
        }
        if to >= 80 {
            assert(marked[to - 80] == within(tiles, from, to - 80, steps));
        }
        if to < 3920 {
            assert(marked[to + 80] == within(tiles, from, to + 80, steps));
        }
    }
    assert forall|to: int| 0 <= to < 4000 implies next[to] == within(
        tiles,
        from,
        to,
        (steps + 1) as nat,
    ) by {
        lemma_one_more(tiles, from, to, steps);
    }
}

/// A settled marking holds exactly the tiles that can be reached.
pub proof fn lemma_settled_is_reachable(
    marked: Seq<bool>,
    tiles: Seq<TileType>,
    from: int,
    steps: nat,
)
    requires
        marks_within(marked, tiles, from, steps),
        marks_within(marked, tiles, from, (steps + 1) as nat),
    ensures
        forall|to: int| 0 <= to < 4000 ==> marked[to] == reachable(tiles, from, to),
        forall|to: int| reachable(tiles, from, to) ==> within(tiles, from, to, steps),
{
    assert forall|to: int| 0 <= to < 4000 implies one_more(tiles, from, to, steps) == within(
        tiles,
        from,
        to,
        steps,
    ) by {
        lemma_one_more(tiles, from, to, steps);
        assert(marked[to] == within(tiles, from, to, steps));
        assert(marked[to] == within(tiles, from, to, (steps + 1) as nat));
    }
    assert forall|to: int| reachable(tiles, from, to) implies within(tiles, from, to, steps) by {
        let n = choose|n: nat| within(tiles, from, to, n);
        lemma_within_grid(tiles, from, to, n);
        if n <= steps {
            lemma_within_more(tiles, from, to, n, steps);
        } else {
            lemma_settled(tiles, from, steps, n);
        }
    }
}

/// Grids with the same walkable tiles have the same walks.
pub proof fn lemma_same_walks(
    a: Seq<TileType>,
    b: Seq<TileType>,
    from: int,
    to: int,
    steps: nat,
)
    requires
        forall|i: int| 0 <= i < 4000 ==> walkable(#[trigger] a[i]) == walkable(b[i]),
    ensures
        within(a, from, to, steps) == within(b, from, to, steps),
    decreases steps,
{
    if 0 <= from < 4000 {
        assert(walkable(a[from]) == walkable(b[from]));
    }
    if 0 <= to < 4000 {
        assert(walkable(a[to]) == walkable(b[to]));
    }
    if steps > 0 {
        let fewer = (steps - 1) as nat;
        lemma_same_walks(a, b, from, to, fewer);
        lemma_same_walks(a, b, from, to - 1, fewer);
        lemma_same_walks(a, b, from, to + 1, fewer);
        lemma_same_walks(a, b, from, to - 80, fewer);
        lemma_same_walks(a, b, from, to + 80, fewer);
    }
}

/// A grid stays connected where a walkable tile becomes the exit.
pub proof fn lemma_exit_keeps_connected(tiles: Seq<TileType>, goal: int, from: int)
    requires
        tiles.len() == 4000,
        open_at(tiles, goal),
        connected(tiles, from),
    ensures
        connected(tiles.update(goal, TileType::Exit), from),
        open_at(tiles, from) ==> open_at(tiles.update(goal, TileType::Exit), from),
{
    let marked = tiles.update(goal, TileType::Exit);
    assert forall|i: int| 0 <= i < 4000 implies walkable(#[trigger] marked[i]) == walkable(
        tiles[i],
    ) by {}
    assert forall|to: int| open_at(marked, to) implies reachable(marked, from, to) by {
        assert(open_at(tiles, to));
        let steps = choose|steps: nat| within(tiles, from, to, steps);
        lemma_same_walks(marked, tiles, from, to, steps);
    }
}

/// Marks that agree on the first `n` tiles count the same there.
pub proof fn lemma_count_same(a: Seq<bool>, b: Seq<bool>, n: int)
    requires
        forall|i: int| 0 <= i < n ==> a[i] == b[i],
    ensures
        count_marked(a, n) == count_marked(b, n),
    decreases n,
{
    if n > 0 {
        lemma_count_same(a, b, n - 1);
    }
}

/// The marks of one round of spreading.
pub struct Round {
    /// The marks after the round.
    pub marked: Vec<bool>,
    /// How many tiles are marked.
    pub count: usize,
    /// Whether the round marked a tile that was not marked before.
    pub grew: bool,
    /// A tile that the round marked, where it marked one.
    pub newest: usize,
}

/// Spreads the marks by one step: a tile is marked afterwards where it
/// was marked, or where it is walkable and a neighbour was marked.
pub fn spread(tiles: &Vec<TileType>, marked: &Vec<bool>) -> (round: Round)
    requires
        tiles@.len() == 4000,
        marked@.len() == 4000,
    ensures
        round.marked@.len() == 4000,
        forall|i: int|
            0 <= i < 4000 ==> round.marked@[i] == (marked@[i] || (walkable(tiles@[i]) && touches(
                marked@,
                i,
            ))),
        round.count == count_marked(round.marked@, 4000),
        round.count <= 4000,
        round.grew ==> round.newest < 4000 && round.marked@[round.newest as int]
            && !marked@[round.newest as int],
        round.grew ==> count_marked(marked@, 4000) < round.count,
        !round.grew ==> round.marked@ == marked@,
{
    let mut next: Vec<bool> = Vec::new();
    let mut count: usize = 0;
    let mut grew = false;
    let mut newest: usize = 0;
    let mut i: usize = 0;
    while i < NUM_TILES
        invariant
            i <= NUM_TILES,
            tiles@.len() == 4000,
            marked@.len() == 4000,
            next@.len() == i,
            forall|j: int|
                0 <= j < i ==> next@[j] == (marked@[j] || (walkable(tiles@[j]) && touches(
                    marked@,
                    j,
                ))),
            count == count_marked(next@, i as int),
            count <= i,
            grew ==> newest < i && next@[newest as int] && !marked@[newest as int],
            grew ==> count_marked(marked@, i as int) < count,
            !grew ==> count_marked(marked@, i as int) == count,
            !grew ==> forall|j: int| 0 <= j < i ==> next@[j] == marked@[j],
        decreases NUM_TILES - i,
    {
        let was = marked[i];
        let mut now = was;
        if !now {
            let tile = tiles[i];
            if tile == TileType::Floor || tile == TileType::Exit {
                let column = i % 80;
                now = (column > 0 && marked[i - 1]) || (column < 79 && marked[i + 1]) || (i >= 80
                    && marked[i - 80]) || (i < 3920 && marked[i + 80]);
            }
        }
        let ghost before = next@;
        next.push(now);
        proof {
            lemma_count_same(before, next@, i as int);
        }
        if now {
            count += 1;
            if !was {
                grew = true;
                newest = i;
            }
        }
        i += 1;
    }
    proof {
        if !grew {
            assert(next@ =~= marked@);
        }
    }
    Round { marked: next, count, grew, newest }
}

/// What an exploration from a tile found.
pub struct Reach {
    /// For each tile, whether it can be walked to.
    pub reached: Vec<bool>,
    /// A tile that is as many steps away as any.
    pub farthest: usize,
    /// How many steps away that tile is.
    pub distance: usize,
}

/// The marks of the tiles within no step of `start`: `start` itself where
/// it is walkable.
fn mark_start(tiles: &Vec<TileType>, start: usize) -> (marked: Vec<bool>)
    requires
        tiles@.len() == 4000,
        start < 4000,
    ensures
        marks_within(marked@, tiles@, start as int, 0),
        count_marked(marked@, 4000) == if walkable(tiles@[start as int]) {
            1int
        } else {
            0int
        },
{
    let tile = tiles[start];
    let open = tile == TileType::Floor || tile == TileType::Exit;
    let mut marked: Vec<bool> = Vec::new();
    let mut i: usize = 0;
    while i < NUM_TILES
        invariant
            i <= NUM_TILES,
            start < 4000,
            marked@.len() == i,
            forall|j: int| 0 <= j < i ==> marked@[j] == (open && j == start),
            count_marked(marked@, i as int) == if open && start < i {
                1int
            } else {
                0int
            },
        decreases NUM_TILES - i,
    {
        let ghost before = marked@;
        marked.push(open && i == start);
        proof {
            lemma_count_same(before, marked@, i as int);
        }
        i += 1;
    }
    marked
}

/// The tiles within `steps` steps of `start`.
pub fn tiles_within(map: &GridMap, start: usize, steps: usize) -> (marked: Vec<bool>)
    requires
        map.wf(),
        start < 4000,
    ensures
        marks_within(marked@, map.tiles@, start as int, steps as nat),
{
    let mut marked = mark_start(&map.tiles, start);
    let mut done: usize = 0;
    while done < steps
        invariant
            done <= steps,
            map.wf(),
            marks_within(marked@, map.tiles@, start as int, done as nat),
        decreases steps - done,
    {
        let round = spread(&map.tiles, &marked);
        proof {
            lemma_spread(marked@, round.marked@, map.tiles@, start as int, done as nat);
        }
        marked = round.marked;
        done += 1;
    }
    marked
}

/// Explores the map from `start`: which tiles can be walked to, and one
/// that is farthest, with its distance in steps.
pub fn explore(map: &GridMap, start: usize) -> (found: Reach)
    requires
        map.wf(),
        start < 4000,
    ensures
        found.reached@.len() == 4000,
        forall|to: int|
            0 <= to < 4000 ==> found.reached@[to] == reachable(map.tiles@, start as int, to),
        forall|to: int|
            reachable(map.tiles@, start as int, to) ==> within(
                map.tiles@,
                start as int,
                to,
                found.distance as nat,
            ),
        found.farthest < 4000,
        open_at(map.tiles@, start as int) ==> within(
            map.tiles@,
            start as int,
            found.farthest as int,
            found.distance as nat,
        ),
        found.distance > 0 ==> !within(
            map.tiles@,
            start as int,
            found.farthest as int,
            (found.distance - 1) as nat,
        ),
        !open_at(map.tiles@, start as int) ==> found.farthest == start && found.distance == 0,
{
    let mut marked = mark_start(&map.tiles, start);
    let mut count: usize = if map.tiles[start] == TileType::Floor || map.tiles[start]
        == TileType::Exit {
        1
    } else {
        0
    };
    let mut farthest = start;
    let mut distance: usize = 0;
    loop
        invariant_except_break
            map.wf(),
            start < 4000,
            farthest < 4000,
            marks_within(marked@, map.tiles@, start as int, distance as nat),
            count == count_marked(marked@, 4000),
            count <= 4000,
            distance <= count,
            open_at(map.tiles@, start as int) ==> marked@[farthest as int],
            distance > 0 ==> !within(
                map.tiles@,
                start as int,
                farthest as int,
                (distance - 1) as nat,
            ),
            !open_at(map.tiles@, start as int) ==> farthest == start && distance == 0,
        ensures
            start < 4000,
            farthest < 4000,
            marks_within(marked@, map.tiles@, start as int, distance as nat),
            marks_within(marked@, map.tiles@, start as int, (distance + 1) as nat),
            open_at(map.tiles@, start as int) ==> marked@[farthest as int],
            distance > 0 ==> !within(
                map.tiles@,
                start as int,
                farthest as int,
                (distance - 1) as nat,
            ),
            !open_at(map.tiles@, start as int) ==> farthest == start && distance == 0,
        decreases 4000 - count,
    {
        let round = spread(&map.tiles, &marked);
        proof {
            lemma_spread(marked@, round.marked@, map.tiles@, start as int, distance as nat);
        }
        if !round.grew {
            break ;
        }
        proof {
            if !open_at(map.tiles@, start as int) {
                assert(!marked@[round.newest as int]);
                assert(round.marked@[round.newest as int]);
                let idx = round.newest as int;
                assert(touches(marked@, idx));
                if idx % 80 > 0 && marked@[idx - 1] {
                    lemma_within_grid(map.tiles@, start as int, idx - 1, distance as nat);
                } else if idx % 80 < 79 && marked@[idx + 1] {
                    lemma_within_grid(map.tiles@, start as int, idx + 1, distance as nat);
                } else if idx >= 80 && marked@[idx - 80] {
                    lemma_within_grid(map.tiles@, start as int, idx - 80, distance as nat);
                } else {
                    lemma_within_grid(map.tiles@, start as int, idx + 80, distance as nat);
                }
            }
        }
        marked = round.marked;
        count = round.count;
        farthest = round.newest;
        distance += 1;
    }
    proof {
        lemma_settled_is_reachable(marked@, map.tiles@, start as int, distance as nat);
    }
    Reach { reached: marked, farthest, distance }
}

/// Whether every walkable tile of the map can be walked to from `start`.
pub fn is_connected(map: &GridMap, start: usize) -> (whole: bool)
    requires
        map.wf(),
        start < 4000,
    ensures
        whole == connected(map.tiles@, start as int),
{
    let found = explore(map, start);
    let mut i: usize = 0;
    while i < NUM_TILES
        invariant
            i <= NUM_TILES,
            map.wf(),
            found.reached@.len() == 4000,
            forall|to: int|
                0 <= to < 4000 ==> found.reached@[to] == reachable(map.tiles@, start as int, to),
            forall|to: int| 0 <= to < i && open_at(map.tiles@, to) ==> found.reached@[to],
        decreases NUM_TILES - i,
    {
        let tile = map.tiles[i];
        if (tile == TileType::Floor || tile == TileType::Exit) && !found.reached[i] {
            assert(open_at(map.tiles@, i as int));
            return false;
        }
        i += 1;
    }
    true
}

} // verus!
