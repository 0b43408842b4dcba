//! The game session: the entity store, the level's grid and the turn
//! state, and the steps that take the session from frame to frame and
//! from level to level.

use crate::map::{in_grid, GridMap, Point, TileType};
use crate::map_builder::reach::{connected, lemma_exit_keeps_connected, open_at};
use crate::map_builder::themes::Theme;
use crate::map_builder::{tile_of, MapBuilder};
use crate::spawner::{
    adds, amulet_at, is_spawn_at, player_at, populated, spawn_all, spawn_amulet_of_yala,
    spawn_player, spawned,
};
use crate::turn_state::{asked_step, Command, TurnState};
use crate::world::{
    all_entities, carried_items, descend_players, descended, dirtied, empty_world, entities,
    first_player, is_placed_player, level_of_some, lists_carried, mark_fields_of_view_dirty,
    pushed, remove_entity, same_entity, EntityData,
};
use bracket_lib::prelude::RandomNumberGenerator;
use legion::{Entity, World};
use vstd::prelude::*;

verus! {

/// The level on which the amulet lies, in place of an exit.
pub const FINAL_LEVEL: u32 = 2;

/// The game session.
pub struct State {
    /// The entities of the level.
    pub ecs: World,
    /// The grid of the level.
    pub map: GridMap,
    /// Where the player came onto the level.
    pub player_start: Point,
    /// The phase that the next frame runs.
    pub turn_state: TurnState,
    /// How the level is drawn.
    pub theme: Theme,
}

/// What a frame has to run or show.
#[derive(Clone, Copy, PartialEq, Eq, Structural, Debug)]
pub enum Action {
    /// The input systems, with the step that the player asked for.
    Input(Option<Point>),
    /// The systems of the player's turn.
    PlayerTurn,
    /// The systems of the monsters' turn.
    MonsterTurn,
    /// The screen of the lost game.
    GameOver,
    /// The screen of the won game.
    Victory,
    /// Nothing: the next level was entered.
    NextLevel,
}

/// Whether `entity` goes on to the next level with `player`: it is the
/// player, or the player carries it.
pub open spec fn kept(before: Map<Entity, EntityData>, player: Entity, entity: Entity) -> bool {
    entity == player || before[entity].carried == Some(player)
}

/// The entities of `before` that go on to the next level with `player`.
pub open spec fn survivors(before: Map<Entity, EntityData>, player: Entity) -> Map<
    Entity,
    EntityData,
> {
    before.restrict(Set::new(|entity: Entity| kept(before, player, entity)))
}

/// The entities that go on to the next level with `player`, as they
/// arrive there: fields of view are dirty, and a player with a position
/// is one level further and stands at `start`.
pub open spec fn carried_over(before: Map<Entity, EntityData>, player: Entity, start: Point) -> Map<
    Entity,
    EntityData,
> {
    Map::new(
        |entity: Entity| before.contains_key(entity) && kept(before, player, entity),
        |entity: Entity| descended(dirtied(before[entity]), start),
    )
}

/// Whether `player` is a player, and the only one.
pub open spec fn is_sole_player(held: Map<Entity, EntityData>, player: Entity) -> bool {
    &&& held.contains_key(player)
    &&& held[player].player is Some
    &&& forall|entity: Entity| #[trigger]
        held.contains_key(entity) && held[entity].player is Some ==> entity == player
}

/// Whether exactly one entity is a player.
pub open spec fn has_sole_player(held: Map<Entity, EntityData>) -> bool {
    exists|player: Entity| is_sole_player(held, player)
}

/// The level that a player arrives on: one further for a player with a
/// position, and 0 for one without, who does not go down.
pub open spec fn arrival_depth(data: EntityData) -> u32 {
    if is_placed_player(data) {
        (data.player->0.map_level + 1) as u32
    } else {
        0
    }
}

/// `held` without the entities of `gone`.
pub open spec fn without(held: Map<Entity, EntityData>, gone: Seq<Entity>) -> Map<
    Entity,
    EntityData,
> {
    Map::new(
        |entity: Entity| held.contains_key(entity) && !gone.contains(entity),
        |entity: Entity| held[entity],
    )
}

/// Whether every player with a position can go one level further.
pub open spec fn can_descend(held: Map<Entity, EntityData>) -> bool {
    forall|entity: Entity| #[trigger]
        held.contains_key(entity) && is_placed_player(held[entity])
            ==> held[entity].player->0.map_level < u32::MAX
}

/// The tiles of a level with the exit at `goal`.
pub open spec fn with_exit(tiles: Seq<TileType>, goal: Point) -> Seq<TileType> {
    tiles.update(tile_of(goal), TileType::Exit)
}

impl State {
    /// Whether the level of the session can be played: the player's start
    /// is a walkable tile of the grid, and every walkable tile, the exit
    /// among them, can be walked to from there.
    pub open spec fn playable(&self) -> bool {
        &&& self.map.wf()
        &&& in_grid(self.player_start.x as int, self.player_start.y as int)
        &&& open_at(self.map.tiles@, tile_of(self.player_start))
        &&& connected(self.map.tiles@, tile_of(self.player_start))
    }

    /// Whether this is the session as it starts on `level`: the game
    /// waits for input, the goal is the level's one exit, and the store
    /// holds a new player at the start and an item or a monster at each
    /// place to spawn at.
    pub open spec fn started_on(&self, level: MapBuilder) -> bool {
        &&& self.turn_state == TurnState::AwaitingInput
        &&& self.player_start == level.player_start
        &&& self.theme == level.theme
        &&& self.map.tiles@ == with_exit(level.map.tiles@, level.amulet_start)
        &&& self.map.revealed_tiles@ == level.map.revealed_tiles@
        &&& exists|mid: Map<Entity, EntityData>| #[trigger]
            spawned(Map::empty(), mid, player_at(level.player_start)) && populated(
                mid,
                entities(self.ecs),
                level.monster_spawns@,
            )
    }

    /// Whether this is the session as it arrives on `level` at `depth`,
    /// from a store that held `before`, with `player`. Of the entities
    /// that the store held, the player and what the player carries are
    /// still there, and no others. On the final level the amulet lies at
    /// the goal and no tile is an exit; on any other level the goal is
    /// the one exit and there is no new amulet. An item or a monster
    /// stands at each place to spawn at.
    pub open spec fn arrived_on(
        &self,
        before: Map<Entity, EntityData>,
        player: Entity,
        level: MapBuilder,
        depth: u32,
    ) -> bool {
        let base = carried_over(before, player, level.player_start);
        &&& self.turn_state == TurnState::AwaitingInput
        &&& self.player_start == level.player_start
        &&& self.theme == level.theme
        &&& self.map.revealed_tiles@ == level.map.revealed_tiles@
        &&& depth == arrival_depth(before[player])
        &&& forall|entity: Entity| #[trigger]
            before.contains_key(entity) ==> (entities(self.ecs).contains_key(entity) <==> kept(
                before,
                player,
                entity,
            ))
        &&& if depth == FINAL_LEVEL {
            &&& self.map.tiles@ == level.map.tiles@
            &&& exists|mid: Map<Entity, EntityData>| #[trigger]
                spawned(base, mid, amulet_at(level.amulet_start)) && populated(
                    mid,
                    entities(self.ecs),
                    level.monster_spawns@,
                )
        } else {
            &&& self.map.tiles@ == with_exit(level.map.tiles@, level.amulet_start)
            &&& populated(base, entities(self.ecs), level.monster_spawns@)
        }
    }

    /// Starts a session on `level`, whose goal lies on its grid.
    pub fn enter(level: MapBuilder, rng: &mut RandomNumberGenerator) -> (state: State)
        requires
            level.map.wf(),
            in_grid(level.amulet_start.x as int, level.amulet_start.y as int),
        ensures
            state.started_on(level),
            state.map.wf(),
            level.map.unseen() ==> state.map.unseen(),
            level.valid() ==> state.playable(),
            has_sole_player(entities(state.ecs)),
            can_descend(entities(state.ecs)),
    {
        proof {
            if level.valid() {
                lemma_exit_keeps_connected(
                    level.map.tiles@,
                    tile_of(level.amulet_start),
                    tile_of(level.player_start),
                );
            }
        }
        let mut ecs = empty_world();
        spawn_player(&mut ecs, level.player_start);
        let ghost mid = entities(ecs);
        spawn_all(&mut ecs, &level.monster_spawns, rng);
        let mut map = level.map;
        mark_exit(&mut map, level.amulet_start);
        let state = State {
            ecs,
            map,
            player_start: level.player_start,
            turn_state: TurnState::AwaitingInput,
            theme: level.theme,
        };
        assert(spawned(Map::empty(), mid, player_at(level.player_start)) && populated(
            mid,
            entities(state.ecs),
            level.monster_spawns@,
        ));
        proof {
            lemma_start_sole_player(state, level);
        }
        state
    }

    /// Starts a session on a level built with `rng`.
    pub fn new(rng: &mut RandomNumberGenerator) -> (state: State)
        ensures
            exists|level: MapBuilder| level.valid() && #[trigger] state.started_on(level),
            state.playable(),
            state.map.unseen(),
            has_sole_player(entities(state.ecs)),
            can_descend(entities(state.ecs)),
    {
        let level = MapBuilder::new(rng);
        let ghost built = level;
        let state = State::enter(level, rng);
        assert(built.valid() && state.started_on(built));
        state
    }

    /// Starts the session anew on a level built with `rng`. Nothing of
    /// the old session stays.
    pub fn reset_game(&mut self, rng: &mut RandomNumberGenerator)
        ensures
            exists|level: MapBuilder| level.valid() && #[trigger] final(self).started_on(level),
            final(self).playable(),
            final(self).map.unseen(),
            has_sole_player(entities(final(self).ecs)),
            can_descend(entities(final(self).ecs)),
    {
        *self = State::new(rng);
    }

    /// Takes the session to `level`, whose goal lies on its grid, with
    /// `player`, the one player of the store. The fields of view are
    /// marked dirty, the player goes one level further and to the level's
    /// start, the level's entities are spawned, and at the end every
    /// entity that the store held before leaves it, but the player and
    /// what they carry. Returns the player's new level.
    pub fn advance_into(
        &mut self,
        level: MapBuilder,
        player: Entity,
        rng: &mut RandomNumberGenerator,
    ) -> (depth: u32)
        requires
            level.map.wf(),
            in_grid(level.amulet_start.x as int, level.amulet_start.y as int),
            is_sole_player(entities(old(self).ecs), player),
            can_descend(entities(old(self).ecs)),
        ensures
            final(self).arrived_on(entities(old(self).ecs), player, level, depth),
            final(self).map.wf(),
            level.map.unseen() ==> final(self).map.unseen(),
            level.valid() ==> final(self).playable(),
            is_sole_player(entities(final(self).ecs), player),
            depth < u32::MAX ==> can_descend(entities(final(self).ecs)),
    {
        proof {
            if level.valid() {
                lemma_exit_keeps_connected(
                    level.map.tiles@,
                    tile_of(level.amulet_start),
                    tile_of(level.player_start),
                );
            }
        }
        let ghost before = entities(self.ecs);
        let ghost base = carried_over(before, player, level.player_start);
        let doomed = left_behind(&self.ecs, player);
        mark_fields_of_view_dirty(&mut self.ecs);
        let ghost dirty = entities(self.ecs);
        assert forall|entity: Entity| #[trigger]
            dirty.contains_key(entity) && is_placed_player(
                dirty[entity],
            ) implies dirty[entity].player->0.map_level < u32::MAX by {
            assert(before.contains_key(entity));
            assert(dirty[entity] == dirtied(before[entity]));
        }
        let levels = descend_players(&mut self.ecs, level.player_start);
        let depth = last_level(&levels);
        let ghost moved = entities(self.ecs);
        proof {
            assert forall|entity: Entity| #[trigger] moved.contains_key(entity) implies moved[entity]
                == descended(dirtied(before[entity]), level.player_start) by {
                assert(dirty.contains_key(entity));
                assert(before.contains_key(entity));
            }
            assert(moved.contains_key(player));
            if is_placed_player(before[player]) {
                assert(is_placed_player(moved[player]));
                assert(levels@.contains(moved[player].player->0.map_level));
            }
            if levels@.len() > 0 {
                assert(level_of_some(moved, levels@[levels@.len() - 1]));
                let found = choose|entity: Entity| #[trigger]
                    moved.contains_key(entity) && is_placed_player(moved[entity])
                        && moved[entity].player->0.map_level == depth;
                assert(before.contains_key(found) && before[found].player is Some);
            }
            assert(depth == arrival_depth(before[player]));
        }
        let mut map = level.map;
        if depth == FINAL_LEVEL {
            spawn_amulet_of_yala(&mut self.ecs, level.amulet_start);
        } else {
            mark_exit(&mut map, level.amulet_start);
        }
        let ghost marked = entities(self.ecs);
        spawn_all(&mut self.ecs, &level.monster_spawns, rng);
        let ghost crowded = entities(self.ecs);
        remove_all(&mut self.ecs, &doomed);
        self.map = map;
        self.player_start = level.player_start;
        self.turn_state = TurnState::AwaitingInput;
        self.theme = level.theme;
        proof {
            lemma_arrival(
                before,
                moved,
                marked,
                crowded,
                entities(self.ecs),
                doomed@,
                player,
                level,
                depth,
            );
            lemma_arrival_sole_player(*self, before, player, level, depth);
        }
        depth
    }

    /// Takes the session to the next level, built with `rng`. The store
    /// holds one player. Returns the player's new level.
    pub fn advance_level(&mut self, rng: &mut RandomNumberGenerator) -> (depth: u32)
        requires
            has_sole_player(entities(old(self).ecs)),
            can_descend(entities(old(self).ecs)),
        ensures
            exists|level: MapBuilder, player: Entity|
                level.valid() && is_sole_player(entities(old(self).ecs), player)
                    && #[trigger] final(self).arrived_on(
                    entities(old(self).ecs),
                    player,
                    level,
                    depth,
                ),
            final(self).playable(),
            final(self).map.unseen(),
            has_sole_player(entities(final(self).ecs)),
            depth < u32::MAX ==> can_descend(entities(final(self).ecs)),
    {
        let ghost sole = choose|player: Entity| is_sole_player(entities(self.ecs), player);
        let found = first_player(&self.ecs);
        let player = match found {
            Some(player) => player,
            None => {
                proof {
                    assert(entities(self.ecs).contains_key(sole));
                }
                vstd::pervasive::unreached()
            },
        };
        assert(player == sole);
        let level = MapBuilder::new(rng);
        let ghost built = level;
        let depth = self.advance_into(level, player, rng);
        assert(built.valid() && self.arrived_on(entities(old(self).ecs), player, built, depth));
        depth
    }

    /// Runs the part of a frame that the turn state asks for, and says
    /// what is left to run or show. While the game waits for input, a
    /// command for a step starts the player's turn, and anything else
    /// changes nothing. On the screens of the lost and of the won game a
    /// command to restart starts the session anew. In the state of the
    /// next level the session goes there.
    pub fn tick(&mut self, command: Option<Command>, rng: &mut RandomNumberGenerator) -> (action:
        Action)
        requires
            old(self).turn_state == TurnState::NextLevel ==> has_sole_player(
                entities(old(self).ecs),
            ) && can_descend(entities(old(self).ecs)),
        ensures
            action == frame_of(old(self).turn_state, command),
            old(self).turn_state == TurnState::AwaitingInput ==> *final(self) == (State {
                turn_state: old(self).turn_state.after_input(command),
                ..*old(self)
            }),
            old(self).turn_state == TurnState::PlayerTurn || old(self).turn_state
                == TurnState::MonsterTurn ==> *final(self) == *old(self),
            old(self).turn_state.is_terminal() && command != Some(Command::Restart) ==> *final(self)
                == *old(self),
            old(self).turn_state.is_terminal() && command == Some(Command::Restart)
                ==> exists|level: MapBuilder|
                level.valid() && #[trigger] final(self).started_on(level),
            old(self).turn_state == TurnState::NextLevel ==> exists|
                level: MapBuilder,
                player: Entity,
                depth: u32,
            |
                level.valid() && is_sole_player(entities(old(self).ecs), player)
                    && #[trigger] final(self).arrived_on(
                    entities(old(self).ecs),
                    player,
                    level,
                    depth,
                ),
            old(self).turn_state.is_terminal() && command == Some(Command::Restart)
                ==> final(self).playable() && final(self).map.unseen(),
            old(self).turn_state == TurnState::NextLevel
                ==> final(self).playable() && final(self).map.unseen(),
            has_sole_player(entities(old(self).ecs)) ==> has_sole_player(entities(final(self).ecs)),
    {
        match self.turn_state {
            TurnState::AwaitingInput => {
                let step = match command {
                    Some(asked) => asked.delta(),
                    None => None,
                };
                if step.is_some() {
                    self.turn_state = TurnState::PlayerTurn;
                }
                Action::Input(step)
            },
            TurnState::PlayerTurn => Action::PlayerTurn,
            TurnState::MonsterTurn => Action::MonsterTurn,
            TurnState::GameOver => {
                if is_restart(command) {
                    self.reset_game(rng);
                }
                Action::GameOver
            },
            TurnState::Victory => {
                if is_restart(command) {
                    self.reset_game(rng);
                }
                Action::Victory
            },
            TurnState::NextLevel => {
                self.advance_level(rng);
                Action::NextLevel
            },
        }
    }
}

/// A session that starts on a level has one player, who can go down.
pub proof fn lemma_start_sole_player(state: State, level: MapBuilder)
    requires
        state.started_on(level),
    ensures
        has_sole_player(entities(state.ecs)),
        can_descend(entities(state.ecs)),
{
    let after = entities(state.ecs);
    let spawns = level.monster_spawns@;
    let mid = choose|mid: Map<Entity, EntityData>| #[trigger]
        spawned(Map::empty(), mid, player_at(level.player_start)) && populated(mid, after, spawns);
    let player = choose|entity: Entity|
        pushed(Map::empty(), mid, entity, player_at(level.player_start));
    let added = choose|added: Seq<Entity>| adds(mid, after, added, spawns);
    assert(mid.contains_key(player));
    assert forall|entity: Entity| #[trigger]
        after.contains_key(entity) && after[entity].player is Some implies entity == player by {
        if !mid.contains_key(entity) {
            let i = choose|i: int| 0 <= i < added.len() && added[i] == entity;
            assert(is_spawn_at(after[added[i]], spawns[i]));
        }
    }
    assert(is_sole_player(after, player));
}

/// A session that arrives on a level with the one player of the store
/// has that one player still, who can go down again unless the level
/// counter is full.
pub proof fn lemma_arrival_sole_player(
    state: State,
    before: Map<Entity, EntityData>,
    player: Entity,
    level: MapBuilder,
    depth: u32,
)
    requires
        state.arrived_on(before, player, level, depth),
        is_sole_player(before, player),
    ensures
        is_sole_player(entities(state.ecs), player),
        depth < u32::MAX ==> can_descend(entities(state.ecs)),
{
    let after = entities(state.ecs);
    lemma_arrival_keeps(state, before, player, level, depth);
    lemma_arrival_adds(state, before, player, level, depth);
    assert(before.contains_key(player) && kept(before, player, player));
    assert(after.contains_key(player));
    assert forall|entity: Entity| #[trigger]
        after.contains_key(entity) && after[entity].player is Some implies entity == player by {
        if before.contains_key(entity) && kept(before, player, entity) {
            assert(before[entity].player is Some);
        } else if depth == FINAL_LEVEL && after[entity] == amulet_at(level.amulet_start) {
        } else {
            let i = choose|i: int|
                0 <= i < level.monster_spawns@.len() && is_spawn_at(
                    after[entity],
                    #[trigger] level.monster_spawns@[i],
                );
        }
    }
}

/// On arrival the player and what they carry are in the store, each as
/// it was but for a dirty field of view and, for a player with a
/// position, the next level and the new start.
pub proof fn lemma_arrival_keeps(
    state: State,
    before: Map<Entity, EntityData>,
    player: Entity,
    level: MapBuilder,
    depth: u32,
)
    requires
        state.arrived_on(before, player, level, depth),
    ensures
        forall|entity: Entity| #[trigger]
            before.contains_key(entity) && kept(before, player, entity) ==> entities(
                state.ecs,
            ).contains_key(entity) && entities(state.ecs)[entity] == descended(
                dirtied(before[entity]),
                level.player_start,
            ),
{
    let base = carried_over(before, player, level.player_start);
    let after = entities(state.ecs);
    if depth == FINAL_LEVEL {
        let mid = choose|mid: Map<Entity, EntityData>| #[trigger]
            spawned(base, mid, amulet_at(level.amulet_start)) && populated(
                mid,
                after,
                level.monster_spawns@,
            );
        let amulet = choose|entity: Entity|
            pushed(base, mid, entity, amulet_at(level.amulet_start));
        let added = choose|added: Seq<Entity>| adds(mid, after, added, level.monster_spawns@);
        assert forall|entity: Entity| #[trigger]
            before.contains_key(entity) && kept(before, player, entity) implies after.contains_key(
            entity,
        ) && after[entity] == descended(dirtied(before[entity]), level.player_start) by {
            assert(base.contains_key(entity));
            assert(mid.contains_key(entity));
        }
    } else {
        let added = choose|added: Seq<Entity>| adds(base, after, added, level.monster_spawns@);
        assert forall|entity: Entity| #[trigger]
            before.contains_key(entity) && kept(before, player, entity) implies after.contains_key(
            entity,
        ) && after[entity] == descended(dirtied(before[entity]), level.player_start) by {
            assert(base.contains_key(entity));
        }
    }
}

/// On arrival every entity of the store came along with the player, or
/// is an item or a monster at a place to spawn at, or, on the final level
/// only, is the amulet at the goal. On the final level the amulet is
/// there.
pub proof fn lemma_arrival_adds(
    state: State,
    before: Map<Entity, EntityData>,
    player: Entity,
    level: MapBuilder,
    depth: u32,
)
    requires
        state.arrived_on(before, player, level, depth),
    ensures
        forall|entity: Entity| #[trigger]
            entities(state.ecs).contains_key(entity) ==> (before.contains_key(entity) && kept(
                before,
                player,
                entity,
            )) || (depth == FINAL_LEVEL && entities(state.ecs)[entity] == amulet_at(
                level.amulet_start,
            )) || exists|i: int|
                0 <= i < level.monster_spawns@.len() && is_spawn_at(
                    entities(state.ecs)[entity],
                    #[trigger] level.monster_spawns@[i],
                ),
        depth == FINAL_LEVEL ==> exists|entity: Entity| #[trigger]
            entities(state.ecs).contains_key(entity) && entities(state.ecs)[entity] == amulet_at(
                level.amulet_start,
            ),
{
    let base = carried_over(before, player, level.player_start);
    let after = entities(state.ecs);
    let spawns = level.monster_spawns@;
    if depth == FINAL_LEVEL {
        let mid = choose|mid: Map<Entity, EntityData>| #[trigger]
            spawned(base, mid, amulet_at(level.amulet_start)) && populated(mid, after, spawns);
        let amulet = choose|entity: Entity|
            pushed(base, mid, entity, amulet_at(level.amulet_start));
        let added = choose|added: Seq<Entity>| adds(mid, after, added, spawns);
        assert(mid.contains_key(amulet));
        assert(after.contains_key(amulet) && after[amulet] == amulet_at(level.amulet_start));
        assert forall|entity: Entity| #[trigger] after.contains_key(entity) implies (
        before.contains_key(entity) && kept(before, player, entity)) || (depth == FINAL_LEVEL
            && after[entity] == amulet_at(level.amulet_start)) || exists|i: int|
            0 <= i < spawns.len() && is_spawn_at(after[entity], #[trigger] spawns[i]) by {
            if mid.contains_key(entity) {
                if entity != amulet {
                    assert(base.contains_key(entity));
                }
            } else {
                let i = choose|i: int| 0 <= i < added.len() && added[i] == entity;
                assert(is_spawn_at(after[added[i]], spawns[i]));
            }
        }
    } else {
        let added = choose|added: Seq<Entity>| adds(base, after, added, spawns);
        assert forall|entity: Entity| #[trigger] after.contains_key(entity) implies (
        before.contains_key(entity) && kept(before, player, entity)) || (depth == FINAL_LEVEL
            && after[entity] == amulet_at(level.amulet_start)) || exists|i: int|
            0 <= i < spawns.len() && is_spawn_at(after[entity], #[trigger] spawns[i]) by {
            if !base.contains_key(entity) {
                let i = choose|i: int| 0 <= i < added.len() && added[i] == entity;
                assert(is_spawn_at(after[added[i]], spawns[i]));
            }
        }
    }
}

/// Whether none of the entities that go on with `player` is tagged as the
/// amulet.
pub open spec fn brings_no_amulet(before: Map<Entity, EntityData>, player: Entity) -> bool {
    forall|entity: Entity| #[trigger]
        before.contains_key(entity) && kept(before, player, entity)
            ==> !before[entity].amulet_of_yala
}

/// Whether `amulet` is the amulet, lying at `goal`, and no other entity is
/// tagged as the amulet.
pub open spec fn is_sole_amulet(held: Map<Entity, EntityData>, amulet: Entity, goal: Point) -> bool {
    &&& held.contains_key(amulet)
    &&& held[amulet] == amulet_at(goal)
    &&& forall|entity: Entity| #[trigger]
        held.contains_key(entity) && held[entity].amulet_of_yala ==> entity == amulet
}

/// Where the player brings no amulet along, the store on arrival on the
/// final level holds one amulet, an item at the level's goal, and on any
/// other level it holds none.
pub proof fn lemma_arrival_amulet(
    state: State,
    before: Map<Entity, EntityData>,
    player: Entity,
    level: MapBuilder,
    depth: u32,
)
    requires
        state.arrived_on(before, player, level, depth),
        brings_no_amulet(before, player),
    ensures
        depth == FINAL_LEVEL ==> exists|amulet: Entity| #[trigger]
            is_sole_amulet(entities(state.ecs), amulet, level.amulet_start),
        depth != FINAL_LEVEL ==> forall|entity: Entity| #[trigger]
            entities(state.ecs).contains_key(entity) ==> !entities(
                state.ecs,
            )[entity].amulet_of_yala,
{
    let base = carried_over(before, player, level.player_start);
    let after = entities(state.ecs);
    let spawns = level.monster_spawns@;
    assert forall|entity: Entity| #[trigger]
        base.contains_key(entity) implies !base[entity].amulet_of_yala by {
        assert(before.contains_key(entity) && kept(before, player, entity));
    }
    if depth == FINAL_LEVEL {
        let mid = choose|mid: Map<Entity, EntityData>| #[trigger]
            spawned(base, mid, amulet_at(level.amulet_start)) && populated(mid, after, spawns);
        let amulet = choose|entity: Entity|
            pushed(base, mid, entity, amulet_at(level.amulet_start));
        let added = choose|added: Seq<Entity>| adds(mid, after, added, spawns);
        assert(mid.contains_key(amulet));
        assert forall|entity: Entity| #[trigger]
            after.contains_key(entity) && after[entity].amulet_of_yala implies entity
            == amulet by {
            if mid.contains_key(entity) {
                if entity != amulet {
                    assert(base.contains_key(entity));
                }
            } else {
                let i = choose|i: int| 0 <= i < added.len() && added[i] == entity;
                assert(is_spawn_at(after[added[i]], spawns[i]));
            }
        }
        assert(is_sole_amulet(after, amulet, level.amulet_start));
    } else {
        let added = choose|added: Seq<Entity>| adds(base, after, added, spawns);
        assert forall|entity: Entity| #[trigger]
            after.contains_key(entity) implies !after[entity].amulet_of_yala by {
            if !base.contains_key(entity) {
                let i = choose|i: int| 0 <= i < added.len() && added[i] == entity;
                assert(is_spawn_at(after[added[i]], spawns[i]));
            }
        }
    }
}

/// On arrival on a level that can be played, the final level has no exit
/// and any other level has one, at the goal.
pub proof fn lemma_arrival_exit(
    state: State,
    before: Map<Entity, EntityData>,
    player: Entity,
    level: MapBuilder,
    depth: u32,
)
    requires
        level.valid(),
        state.arrived_on(before, player, level, depth),
    ensures
        forall|i: int|
            0 <= i < 4000 ==> (state.map.tiles@[i] == TileType::Exit <==> depth != FINAL_LEVEL
                && i == tile_of(level.amulet_start)),
{
}

/// The store on arrival, from the stores on the way there: `before` at
/// the start, `moved` with fields of view dirty and the player gone down,
/// `marked` with the amulet where the level is the final one, `crowded`
/// with the level's items and monsters, and `after` without the entities
/// that stay behind.
proof fn lemma_arrival(
    before: Map<Entity, EntityData>,
    moved: Map<Entity, EntityData>,
    marked: Map<Entity, EntityData>,
    crowded: Map<Entity, EntityData>,
    after: Map<Entity, EntityData>,
    doomed: Seq<Entity>,
    player: Entity,
    level: MapBuilder,
    depth: u32,
)
    requires
        forall|entity: Entity| #[trigger]
            doomed.contains(entity) <==> before.contains_key(entity) && !kept(
                before,
                player,
                entity,
            ),
        moved.dom() == before.dom(),
        forall|entity: Entity| #[trigger]
            moved.contains_key(entity) ==> moved[entity] == descended(
                dirtied(before[entity]),
                level.player_start,
            ),
        if depth == FINAL_LEVEL {
            spawned(moved, marked, amulet_at(level.amulet_start))
        } else {
            marked == moved
        },
        populated(marked, crowded, level.monster_spawns@),
        after == without(crowded, doomed),
    ensures
        forall|entity: Entity| #[trigger]
            before.contains_key(entity) ==> (after.contains_key(entity) <==> kept(
                before,
                player,
                entity,
            )),
        if depth == FINAL_LEVEL {
            exists|mid: Map<Entity, EntityData>| #[trigger]
                spawned(
                    carried_over(before, player, level.player_start),
                    mid,
                    amulet_at(level.amulet_start),
                ) && populated(mid, after, level.monster_spawns@)
        } else {
            populated(
                carried_over(before, player, level.player_start),
                after,
                level.monster_spawns@,
            )
        },
{
    let base = carried_over(before, player, level.player_start);
    let spawns = level.monster_spawns@;
    let added = choose|added: Seq<Entity>| adds(marked, crowded, added, spawns);
    assert forall|entity: Entity| #[trigger] base.contains_key(entity) implies moved.contains_key(
        entity,
    ) && moved[entity] == base[entity] && !doomed.contains(entity) by {
        assert(before.contains_key(entity));
        assert(moved.dom().contains(entity));
    }
    assert forall|entity: Entity| #[trigger] moved.contains_key(entity) implies before.contains_key(
        entity,
    ) by {
        assert(moved.dom().contains(entity));
    }
    assert forall|i: int| 0 <= i < added.len() implies !doomed.contains(#[trigger] added[i]) by {
        if doomed.contains(added[i]) {
            assert(before.contains_key(added[i]));
            assert(before.dom().contains(added[i]));
            assert(moved.contains_key(added[i]));
        }
    }
    if depth == FINAL_LEVEL {
        let amulet = choose|entity: Entity|
            pushed(moved, marked, entity, amulet_at(level.amulet_start));
        let mid = base.insert(amulet, amulet_at(level.amulet_start));
        assert(!base.contains_key(amulet));
        assert(pushed(base, mid, amulet, amulet_at(level.amulet_start)));
        assert(!doomed.contains(amulet)) by {
            if doomed.contains(amulet) {
                assert(before.dom().contains(amulet));
            }
        }
        assert forall|entity: Entity| #[trigger] mid.contains_key(entity) implies after.contains_key(
            entity,
        ) && after[entity] == mid[entity] by {
            assert(marked.contains_key(entity));
        }
        assert forall|entity: Entity| #[trigger] after.contains_key(entity) implies mid.contains_key(
            entity,
        ) || added.contains(entity) by {
            assert(crowded.contains_key(entity));
            if marked.contains_key(entity) && entity != amulet {
                assert(moved.contains_key(entity));
                assert(before.contains_key(entity));
                assert(kept(before, player, entity));
            }
        }
        assert forall|i: int| 0 <= i < added.len() implies !mid.contains_key(#[trigger] added[i])
            && after.contains_key(added[i]) && is_spawn_at(after[added[i]], spawns[i]) by {
            assert(!marked.contains_key(added[i]));
            assert(crowded.contains_key(added[i]));
        }
        assert(adds(mid, after, added, spawns));
        assert(spawned(base, mid, amulet_at(level.amulet_start)) && populated(mid, after, spawns));
        assert forall|entity: Entity| #[trigger] before.contains_key(entity) implies (
        after.contains_key(entity) <==> kept(before, player, entity)) by {
            if kept(before, player, entity) {
                assert(base.contains_key(entity));
                assert(mid.contains_key(entity));
            } else {
                assert(doomed.contains(entity));
            }
        }
    } else {
        assert forall|entity: Entity| #[trigger] base.contains_key(entity) implies after.contains_key(
            entity,
        ) && after[entity] == base[entity] by {
            assert(marked.contains_key(entity));
        }
        assert forall|entity: Entity| #[trigger] after.contains_key(entity) implies base.contains_key(
            entity,
        ) || added.contains(entity) by {
            assert(crowded.contains_key(entity));
            if marked.contains_key(entity) {
                assert(before.contains_key(entity));
                assert(kept(before, player, entity));
            }
        }
        assert forall|i: int| 0 <= i < added.len() implies !base.contains_key(#[trigger] added[i])
            && after.contains_key(added[i]) && is_spawn_at(after[added[i]], spawns[i]) by {
            assert(!marked.contains_key(added[i]));
            assert(crowded.contains_key(added[i]));
        }
        assert(adds(base, after, added, spawns));
        assert forall|entity: Entity| #[trigger] before.contains_key(entity) implies (
        after.contains_key(entity) <==> kept(before, player, entity)) by {
            if kept(before, player, entity) {
                assert(base.contains_key(entity));
            } else {
                assert(doomed.contains(entity));
            }
        }
    }
}

/// What a frame has to run or show in `state` on `command`.
pub open spec fn frame_of(state: TurnState, command: Option<Command>) -> Action {
    match state {
        TurnState::AwaitingInput => Action::Input(asked_step(command)),
        TurnState::PlayerTurn => Action::PlayerTurn,
        TurnState::MonsterTurn => Action::MonsterTurn,
        TurnState::GameOver => Action::GameOver,
        TurnState::Victory => Action::Victory,
        TurnState::NextLevel => Action::NextLevel,
    }
}

/// The level that the session arrives on, from the new levels of the
/// players that went down: the last of them, and 0 where none went down.
pub fn last_level(levels: &Vec<u32>) -> (depth: u32)
    ensures
        depth == if levels@.len() == 0 {
            0
        } else {
            levels@[levels@.len() - 1]
        },
{
    if levels.len() == 0 {
        0
    } else {
        levels[levels.len() - 1]
    }
}

/// Whether the command asks to restart.
fn is_restart(command: Option<Command>) -> (restart: bool)
    ensures
        restart == (command == Some(Command::Restart)),
{
    match command {
        Some(Command::Restart) => true,
        _ => false,
    }
}

/// Makes the tile at `goal` the exit.
pub fn mark_exit(map: &mut GridMap, goal: Point)
    requires
        old(map).wf(),
        in_grid(goal.x as int, goal.y as int),
    ensures
        final(map).tiles@ == with_exit(old(map).tiles@, goal),
        final(map).revealed_tiles@ == old(map).revealed_tiles@,
        final(map).wf(),
{
    let exit_idx = map.point2d_to_index(goal);
    map.tiles.set(exit_idx, TileType::Exit);
}

/// Whether `entity` is among `list`.
fn lists(list: &Vec<Entity>, entity: Entity) -> (found: bool)
    ensures
        found == list@.contains(entity),
{
    let mut i: usize = 0;
    while i < list.len()
        invariant
            i <= list@.len(),
            forall|j: int| 0 <= j < i ==> list@[j] != entity,
        decreases list@.len() - i,
    {
        if same_entity(list[i], entity) {
            return true;
        }
        i += 1;
    }
    false
}

/// The entities that go on with `player`: the player, and each entity
/// that the player carries.
fn keepers(ecs: &World, player: Entity) -> (keep: Vec<Entity>)
    ensures
        forall|entity: Entity| #[trigger]
            keep@.contains(entity) ==> kept(entities(*ecs), player, entity),
        forall|entity: Entity| #[trigger]
            entities(*ecs).contains_key(entity) && kept(entities(*ecs), player, entity)
                ==> keep@.contains(entity),
{
    let carried = carried_items(ecs);
    let mut keep: Vec<Entity> = Vec::new();
    keep.push(player);
    assert(keep@[0] == player);
    let mut i: usize = 0;
    while i < carried.len()
        invariant
            i <= carried@.len(),
            lists_carried(carried@, entities(*ecs)),
            keep@.contains(player),
            forall|entity: Entity| #[trigger]
                keep@.contains(entity) ==> kept(entities(*ecs), player, entity),
            forall|j: int|
                0 <= j < i && (#[trigger] carried@[j]).1 == player ==> keep@.contains(carried@[j].0),
        decreases carried@.len() - i,
    {
        let (entity, owner) = carried[i];
        let ghost earlier = keep@;
        if same_entity(owner, player) {
            keep.push(entity);
            proof {
                assert(carried@.contains((entity, owner)));
                assert(keep@[earlier.len() as int] == entity);
                assert forall|other: Entity| #[trigger] keep@.contains(other) implies kept(
                    entities(*ecs),
                    player,
                    other,
                ) by {
                    let k = choose|k: int| 0 <= k < keep@.len() && keep@[k] == other;
                    if k < earlier.len() {
                        assert(earlier[k] == other);
                        assert(earlier.contains(other));
                    }
                }
                assert forall|other: Entity| earlier.contains(other) implies keep@.contains(
                    other,
                ) by {
                    let k = choose|k: int| 0 <= k < earlier.len() && earlier[k] == other;
                    assert(keep@[k] == other);
                }
            }
        }
        i += 1;
    }
    proof {
        assert forall|entity: Entity| #[trigger]
            entities(*ecs).contains_key(entity) && kept(
                entities(*ecs),
                player,
                entity,
            ) implies keep@.contains(entity) by {
            if entity != player {
                assert(carried@.contains((entity, player)));
                let j = choose|j: int| 0 <= j < carried@.len() && carried@[j] == (entity, player);
                assert(carried@[j].1 == player);
            }
        }
    }
    keep
}

/// The entities that stay behind when `player` goes on: every entity but
/// the player and what the player carries.
pub fn left_behind(ecs: &World, player: Entity) -> (doomed: Vec<Entity>)
    ensures
        forall|entity: Entity| #[trigger]
            doomed@.contains(entity) <==> entities(*ecs).contains_key(entity) && !kept(
                entities(*ecs),
                player,
                entity,
            ),
{
    let ghost before = entities(*ecs);
    let keep = keepers(ecs, player);
    let all = all_entities(ecs);
    let mut doomed: Vec<Entity> = Vec::new();
    let mut i: usize = 0;
    while i < all.len()
        invariant
            i <= all@.len(),
            forall|entity: Entity| #[trigger]
                keep@.contains(entity) ==> kept(before, player, entity),
            forall|entity: Entity| #[trigger]
                before.contains_key(entity) && kept(before, player, entity) ==> keep@.contains(
                    entity,
                ),
            forall|entity: Entity| #[trigger]
                all@.contains(entity) <==> before.contains_key(entity),
            forall|k: int|
                0 <= k < doomed@.len() ==> !kept(before, player, #[trigger] doomed@[k])
                    && before.contains_key(doomed@[k]),
            forall|j: int|
                0 <= j < i && !kept(before, player, #[trigger] all@[j]) ==> doomed@.contains(
                    all@[j],
                ),
        decreases all@.len() - i,
    {
        let entity = all[i];
        let ghost earlier = doomed@;
        if !lists(&keep, entity) {
            assert(all@.contains(entity));
            doomed.push(entity);
            proof {
                assert(doomed@[earlier.len() as int] == entity);
                assert forall|other: Entity| earlier.contains(other) implies doomed@.contains(
                    other,
                ) by {
                    let k = choose|k: int| 0 <= k < earlier.len() && earlier[k] == other;
                    assert(doomed@[k] == other);
                }
            }
        }
        i += 1;
    }
    proof {
        assert forall|entity: Entity| #[trigger]
            before.contains_key(entity) && !kept(
                before,
                player,
                entity,
            ) implies doomed@.contains(entity) by {
            assert(all@.contains(entity));
            let j = choose|j: int| 0 <= j < all@.len() && all@[j] == entity;
            assert(doomed@.contains(all@[j]));
        }
    }
    doomed
}

/// Removes the entities of `doomed` from the store.
pub fn remove_all(ecs: &mut World, doomed: &Vec<Entity>)
    ensures
        entities(*final(ecs)) == without(entities(*old(ecs)), doomed@),
{
    let ghost before = entities(*ecs);
    let mut n: usize = 0;
    while n < doomed.len()
        invariant
            n <= doomed@.len(),
            entities(*ecs) == without(before, doomed@.take(n as int)),
        decreases doomed@.len() - n,
    {
        let ghost earlier = doomed@.take(n as int);
        remove_entity(ecs, doomed[n]);
        proof {
            let now = doomed@.take(n + 1);
            assert(now == earlier.push(doomed@[n as int]));
            assert forall|entity: Entity| now.contains(entity) <==> earlier.contains(entity)
                || entity == doomed@[n as int] by {
                if earlier.contains(entity) {
                    let k = choose|k: int| 0 <= k < earlier.len() && earlier[k] == entity;
                    assert(now[k] == entity);
                }
                if entity == doomed@[n as int] {
                    assert(now[n as int] == entity);
                }
                if now.contains(entity) {
                    let k = choose|k: int| 0 <= k < now.len() && now[k] == entity;
                    if k < n {
                        assert(earlier[k] == entity);
                    }
                }
            }
            assert(entities(*ecs) =~= without(before, now));
        }
        n += 1;
    }
    assert(doomed@.take(doomed@.len() as int) == doomed@);
}

/// Removes every entity but `player` and what `player` carries. The
/// entities to remove are listed first and removed afterwards.
pub fn prune(ecs: &mut World, player: Entity)
    ensures
        entities(*final(ecs)) == survivors(entities(*old(ecs)), player),
{
    let doomed = left_behind(ecs, player);
    remove_all(ecs, &doomed);
    assert(entities(*ecs) =~= survivors(entities(*old(ecs)), player));
}

} // verus!
