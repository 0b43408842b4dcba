//! The entity store: a `legion::World`, seen by the verifier as a map from
//! entities to what each of them holds.
//!
//! No function of this file is proved. Each is one call into legion, and
//! its contract says what that call does to the map. The rest of the file
//! are the words that these contracts are written in.

use crate::components::{
    AmuletOfYala, Carried, ChasingPlayer, Enemy, FieldOfView, Health, Item, Name, Player,
    ProvidesDungeonMap, ProvidesHealing, Render, Sight,
};
use crate::map::Point;
use legion::{component, Entity, IntoQuery, World};
use vstd::prelude::*;

verus! {

/// `legion::World`, whose inside the verifier does not see.
#[verifier::external_type_specification]
#[verifier::external_body]
pub struct ExWorld(World);

/// `legion::Entity`, the id of an entity. Two ids are equal where they
/// name the same entity.
#[verifier::external_type_specification]
#[verifier::external_body]
pub struct ExEntity(Entity);

/// The components of one entity, as plain values. A marker component is a
/// flag; any other component is `Some` where the entity has it.
pub struct EntityData {
    pub player: Option<Player>,
    pub position: Option<Point>,
    pub render: Option<Render>,
    pub health: Option<Health>,
    pub name: Option<Seq<char>>,
    pub field_of_view: Option<Sight>,
    pub carried: Option<Entity>,
    pub provides_healing: Option<ProvidesHealing>,
    pub enemy: bool,
    pub chasing_player: bool,
    pub item: bool,
    pub amulet_of_yala: bool,
    pub provides_dungeon_map: bool,
}

/// The entities of `world`, each with its components.
pub uninterp spec fn entities(world: World) -> Map<Entity, EntityData>;

/// An entity without components.
pub open spec fn bare() -> EntityData {
    EntityData {
        player: None,
        position: None,
        render: None,
        health: None,
        name: None,
        field_of_view: None,
        carried: None,
        provides_healing: None,
        enemy: false,
        chasing_player: false,
        item: false,
        amulet_of_yala: false,
        provides_dungeon_map: false,
    }
}

/// `after` is `before` with the new entity `entity`, which holds `data`.
pub open spec fn pushed(
    before: Map<Entity, EntityData>,
    after: Map<Entity, EntityData>,
    entity: Entity,
    data: EntityData,
) -> bool {
    !before.contains_key(entity) && after == before.insert(entity, data)
}

/// The components of an amulet that was pushed with these values.
pub open spec fn amulet_data(pos: Point, render: Render, name: Seq<char>) -> EntityData {
    EntityData {
        item: true,
        amulet_of_yala: true,
        position: Some(pos),
        render: Some(render),
        name: Some(name),
        ..bare()
    }
}

/// The components of a healing item that was pushed with these values.
pub open spec fn healing_data(
    healing: ProvidesHealing,
    pos: Point,
    render: Render,
    name: Seq<char>,
) -> EntityData {
    EntityData {
        item: true,
        provides_healing: Some(healing),
        position: Some(pos),
        render: Some(render),
        name: Some(name),
        ..bare()
    }
}

/// The components of a map-revealing item that was pushed with these
/// values.
pub open spec fn mapper_data(pos: Point, render: Render, name: Seq<char>) -> EntityData {
    EntityData {
        item: true,
        provides_dungeon_map: true,
        position: Some(pos),
        render: Some(render),
        name: Some(name),
        ..bare()
    }
}

/// The components of a player that was pushed with these values.
pub open spec fn player_data(
    player: Player,
    pos: Point,
    render: Render,
    health: Health,
    sight: Sight,
) -> EntityData {
    EntityData {
        player: Some(player),
        position: Some(pos),
        render: Some(render),
        health: Some(health),
        field_of_view: Some(sight),
        ..bare()
    }
}

/// The components of a monster that was pushed with these values.
pub open spec fn monster_data(
    pos: Point,
    render: Render,
    health: Health,
    name: Seq<char>,
    sight: Sight,
) -> EntityData {
    EntityData {
        enemy: true,
        chasing_player: true,
        position: Some(pos),
        render: Some(render),
        health: Some(health),
        name: Some(name),
        field_of_view: Some(sight),
        ..bare()
    }
}

/// What an entity holds once its field of view, if it has one, is dirty.
pub open spec fn dirtied(data: EntityData) -> EntityData {
    match data.field_of_view {
        Some(sight) => EntityData {
            field_of_view: Some(Sight { is_dirty: true, ..sight }),
            ..data
        },
        None => data,
    }
}

/// Whether an entity has both a player component and a position.
pub open spec fn is_placed_player(data: EntityData) -> bool {
    data.player is Some && data.position is Some
}

/// What an entity holds once it has gone one level down to `start`: a
/// player with a position is one level further and stands at `start`,
/// any other entity is as before.
pub open spec fn descended(data: EntityData, start: Point) -> EntityData {
    if is_placed_player(data) {
        EntityData {
            player: Some(Player { map_level: (data.player->0.map_level + 1) as u32 }),
            position: Some(start),
            ..data
        }
    } else {
        data
    }
}

/// Calls `World::default`. Trusted: the new world holds no entity.
#[verifier::external_body]
pub(crate) fn empty_world() -> (world: World)
    ensures
        (entities(world) == Map::<Entity, EntityData>::empty()),
{
    World::default()
}

/// Calls `World::push` with the components of an amulet. Trusted: the
/// world gains one entity under an id that it did not hold, with these
/// components and no other; every other entity is as before.
#[verifier::external_body]
pub(crate) fn push_amulet(world: &mut World, pos: Point, render: Render, name: Name) -> (entity:
    Entity)
    ensures
        pushed(
            entities(*old(world)),
            entities(*final(world)),
            entity,
            amulet_data(pos, render, name.0@),
        ),
{
    world.push((Item, AmuletOfYala, pos, render, name))
}

/// Calls `World::push` with the components of a healing item. Trusted as
/// for the amulet.
#[verifier::external_body]
pub(crate) fn push_healing(
    world: &mut World,
    healing: ProvidesHealing,
    pos: Point,
    render: Render,
    name: Name,
) -> (entity: Entity)
    ensures
        pushed(
            entities(*old(world)),
            entities(*final(world)),
            entity,
            healing_data(healing, pos, render, name.0@),
        ),
{
    world.push((Item, healing, pos, render, name))
}

/// Calls `World::push` with the components of a map-revealing item.
/// Trusted as for the amulet.
#[verifier::external_body]
pub(crate) fn push_mapper(world: &mut World, pos: Point, render: Render, name: Name) -> (entity:
    Entity)
    ensures
        pushed(
            entities(*old(world)),
            entities(*final(world)),
            entity,
            mapper_data(pos, render, name.0@),
        ),
{
    world.push((Item, ProvidesDungeonMap, pos, render, name))
}

/// Calls `World::push` with the components of a player. Trusted as for
/// the amulet.
#[verifier::external_body]
pub(crate) fn push_player(
    world: &mut World,
    player: Player,
    pos: Point,
    render: Render,
    health: Health,
    fov: FieldOfView,
) -> (entity: Entity)
    ensures
        pushed(
            entities(*old(world)),
            entities(*final(world)),
            entity,
            player_data(player, pos, render, health, fov@),
        ),
{
    world.push((player, pos, render, health, fov))
}

/// Calls `World::push` with the components of a monster. Trusted as for
/// the amulet.
#[verifier::external_body]
pub(crate) fn push_monster(
    world: &mut World,
    pos: Point,
    render: Render,
    health: Health,
    name: Name,
    fov: FieldOfView,
) -> (entity: Entity)
    ensures
        pushed(
            entities(*old(world)),
            entities(*final(world)),
            entity,
            monster_data(pos, render, health, name.0@, fov@),
        ),
{
    world.push((Enemy, ChasingPlayer, pos, render, health, name, fov))
}

/// Compares two entity ids with legion's `==`, which compares the ids'
/// numbers. Trusted: it tells whether the two are the same entity.
#[verifier::external_body]
pub(crate) fn same_entity(a: Entity, b: Entity) -> (same: bool)
    ensures
        same == (a == b),
{
    a == b
}

/// Runs legion's query for the entities that have a `Player` component and
/// takes the first. Trusted: the result is an entity of the world that
/// has the component, and is `None` only where no entity has it. Which
/// one comes, where there are several, is left open.
#[verifier::external_body]
pub(crate) fn first_player(world: &World) -> (found: Option<Entity>)
    ensures
        match found {
            Some(entity) => entities(*world).contains_key(entity) && entities(
                *world,
            )[entity].player is Some,
            None => forall|entity: Entity| #[trigger]
                entities(*world).contains_key(entity) ==> entities(*world)[entity].player is None,
        },
{
    <Entity>::query().filter(component::<Player>()).iter(world).nth(0).copied()
}

/// Whether `found` pairs each entity of `held` that is carried with the
/// entity that carries it, and holds nothing else.
pub open spec fn lists_carried(found: Seq<(Entity, Entity)>, held: Map<Entity, EntityData>) -> bool {
    forall|entity: Entity, owner: Entity| #[trigger]
        found.contains((entity, owner)) <==> held.contains_key(entity) && held[entity].carried
            == Some(owner)
}

/// Runs legion's query for the entities that have a `Carried` component.
/// Trusted: the result pairs each such entity with the entity that
/// carries it, and holds nothing else. The order is left open.
#[verifier::external_body]
pub(crate) fn carried_items(world: &World) -> (found: Vec<(Entity, Entity)>)
    ensures
        lists_carried(found@, entities(*world)),
{
    <(Entity, &Carried)>::query().iter(world).map(|(entity, carried)| (*entity, carried.0)).collect()
}

/// Runs legion's query for all entities. Trusted: the result holds the
/// entities of the world and nothing else. The order is left open.
#[verifier::external_body]
pub(crate) fn all_entities(world: &World) -> (found: Vec<Entity>)
    ensures
        forall|entity: Entity| #[trigger]
            found@.contains(entity) <==> entities(*world).contains_key(entity),
{
    <Entity>::query().iter(world).copied().collect()
}

/// Calls `World::remove`. Trusted: the entity leaves the world with all
/// its components, every other entity is as before, and the result tells
/// whether the world held the entity.
#[verifier::external_body]
pub(crate) fn remove_entity(world: &mut World, entity: Entity) -> (removed: bool)
    ensures
        removed == entities(*old(world)).contains_key(entity),
        entities(*final(world)) == entities(*old(world)).remove(entity),
{
    world.remove(entity)
}

/// Runs legion's query for the mutable fields of view and marks each of
/// them dirty. Trusted: the world holds the same entities, and each is as
/// before but that its field of view, if it has one, is dirty.
#[verifier::external_body]
pub(crate) fn mark_fields_of_view_dirty(world: &mut World)
    ensures
        entities(*final(world)).dom() == entities(*old(world)).dom(),
        forall|entity: Entity| #[trigger]
            entities(*old(world)).contains_key(entity) ==> entities(*final(world))[entity]
                == dirtied(entities(*old(world))[entity]),
{
    <&mut FieldOfView>::query().iter_mut(world).for_each(|fov| fov.mark_dirty());
}

/// Whether `level` is the level of some player with a position in
/// `after`.
pub open spec fn level_of_some(after: Map<Entity, EntityData>, level: u32) -> bool {
    exists|entity: Entity| #[trigger]
        after.contains_key(entity) && is_placed_player(after[entity])
            && after[entity].player->0.map_level == level
}

/// Whether `levels` holds the level of each player with a position in
/// `after`, and nothing else.
pub open spec fn lists_levels(levels: Seq<u32>, after: Map<Entity, EntityData>) -> bool {
    &&& forall|i: int| 0 <= i < levels.len() ==> level_of_some(after, #[trigger] levels[i])
    &&& forall|entity: Entity| #[trigger]
        after.contains_key(entity) && is_placed_player(after[entity]) ==> levels.contains(
            after[entity].player->0.map_level,
        )
}

/// Runs legion's query for the entities with a `Player` and a position,
/// calls `Player::descend` on each of them and collects what the calls
/// return. Trusted: the world holds the same entities, each as
/// [`descended`] says, and the result holds the new level of each player
/// that went down and nothing else. The order is left open.
#[verifier::external_body]
pub(crate) fn descend_players(world: &mut World, start: Point) -> (levels: Vec<u32>)
    requires
        forall|entity: Entity| #[trigger]
            entities(*old(world)).contains_key(entity) && is_placed_player(
                entities(*old(world))[entity],
            ) ==> entities(*old(world))[entity].player->0.map_level < u32::MAX,
    ensures
        entities(*final(world)).dom() == entities(*old(world)).dom(),
        forall|entity: Entity| #[trigger]
            entities(*old(world)).contains_key(entity) ==> entities(*final(world))[entity]
                == descended(entities(*old(world))[entity], start),
        lists_levels(levels@, entities(*final(world))),
{
    <(&mut Player, &mut Point)>::query().iter_mut(world).map(
        |(player, pos)| player.descend(pos, start),
    ).collect()
}

} // verus!
