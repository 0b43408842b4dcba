//! The spawner: it turns the places that the level builder chose into
//! entities of the world.

use crate::components::{
    ColorPair, FieldOfView, Health, Name, Player, ProvidesHealing, Render, Rgb, fresh_sight,
};
use crate::glyph::to_cp437;
use crate::map::Point;
use crate::random::roll_dice;
use crate::world::{
    amulet_data, entities, healing_data, mapper_data, monster_data, player_data, push_amulet,
    push_healing, push_mapper, push_monster, push_player, pushed, EntityData,
};
use bracket_lib::prelude::RandomNumberGenerator;
use legion::{Entity, World};
use vstd::prelude::*;

verus! {

/// `after` is `before` with one new entity, which holds `data`.
pub open spec fn spawned(
    before: Map<Entity, EntityData>,
    after: Map<Entity, EntityData>,
    data: EntityData,
) -> bool {
    exists|entity: Entity| pushed(before, after, entity, data)
}

/// White on black, with the glyph of the ASCII character `c`.
pub open spec fn drawn_as(c: char) -> Render {
    Render {
        color: ColorPair { fg: Rgb { r: 255, g: 255, b: 255 }, bg: Rgb { r: 0, g: 0, b: 0 } },
        glyph: c as u16,
    }
}

/// The amulet, lying at `pos`.
pub open spec fn amulet_at(pos: Point) -> EntityData {
    amulet_data(pos, drawn_as('|'), "Amulet of Yala"@)
}

/// A healing potion of 6 hit points, lying at `pos`.
pub open spec fn potion_at(pos: Point) -> EntityData {
    healing_data(ProvidesHealing { amount: 6 }, pos, drawn_as('!'), "Healing Potion"@)
}

/// A dungeon map, lying at `pos`.
pub open spec fn mapper_at(pos: Point) -> EntityData {
    mapper_data(pos, drawn_as('{'), "Dungeon Map"@)
}

/// A player at `pos` who starts the game: on the first level, with 20 of
/// 20 hit points, and seeing 8 tiles far.
pub open spec fn player_at(pos: Point) -> EntityData {
    player_data(
        Player { map_level: 0 },
        pos,
        drawn_as('@'),
        Health { current: 20, max: 20 },
        fresh_sight(8),
    )
}

/// A monster at `pos` with `hp` hit points that chases the player and
/// sees 6 tiles far.
pub open spec fn monster_at(pos: Point, hp: i32, name: Seq<char>, c: char) -> EntityData {
    monster_data(pos, drawn_as(c), Health { current: hp, max: hp }, name, fresh_sight(6))
}

/// A goblin at `pos`.
pub open spec fn goblin_at(pos: Point) -> EntityData {
    monster_at(pos, 1, "Goblin"@, 'g')
}

/// An orc at `pos`.
pub open spec fn orc_at(pos: Point) -> EntityData {
    monster_at(pos, 2, "Orc"@, 'o')
}

/// The monster that a roll of a ten-sided die stands for: a goblin for 1
/// to 8, an orc for any other roll.
pub open spec fn monster_for(roll: int, pos: Point) -> EntityData {
    if 1 <= roll <= 8 {
        goblin_at(pos)
    } else {
        orc_at(pos)
    }
}

/// `after` is `before` with one new monster at `pos`.
pub open spec fn spawned_monster(
    before: Map<Entity, EntityData>,
    after: Map<Entity, EntityData>,
    pos: Point,
) -> bool {
    spawned(before, after, goblin_at(pos)) || spawned(before, after, orc_at(pos))
}

/// `after` is `before` with one new item or monster of a level at `pos`.
pub open spec fn spawned_any(
    before: Map<Entity, EntityData>,
    after: Map<Entity, EntityData>,
    pos: Point,
) -> bool {
    spawned(before, after, potion_at(pos)) || spawned(before, after, mapper_at(pos))
        || spawned_monster(before, after, pos)
}

/// Whether `data` is an item or a monster of a level at `pos`.
pub open spec fn is_spawn_at(data: EntityData, pos: Point) -> bool {
    data == potion_at(pos) || data == mapper_at(pos) || data == goblin_at(pos) || data == orc_at(
        pos,
    )
}

/// `after` is `before` with the new entities `added`: no two of them the
/// same, and each an item or a monster at the place of `spawns` that has
/// its index. Every other entity is as before.
pub open spec fn adds(
    before: Map<Entity, EntityData>,
    after: Map<Entity, EntityData>,
    added: Seq<Entity>,
    spawns: Seq<Point>,
) -> bool {
    &&& added.len() == spawns.len()
    &&& forall|i: int|
        0 <= i < added.len() ==> !before.contains_key(#[trigger] added[i]) && after.contains_key(
            added[i],
        ) && is_spawn_at(after[added[i]], spawns[i])
    &&& forall|i: int, j: int| 0 <= i < j < added.len() ==> added[i] != added[j]
    &&& forall|entity: Entity| #[trigger]
        before.contains_key(entity) ==> after.contains_key(entity) && after[entity]
            == before[entity]
    &&& forall|entity: Entity| #[trigger]
        after.contains_key(entity) ==> before.contains_key(entity) || added.contains(entity)
}

/// `after` is `before` with one new item or monster at each of `spawns`.
pub open spec fn populated(
    before: Map<Entity, EntityData>,
    after: Map<Entity, EntityData>,
    spawns: Seq<Point>,
) -> bool {
    exists|added: Seq<Entity>| adds(before, after, added, spawns)
}

/// One more spawn adds one more entity.
proof fn lemma_adds_one(
    before: Map<Entity, EntityData>,
    mid: Map<Entity, EntityData>,
    after: Map<Entity, EntityData>,
    added: Seq<Entity>,
    spawns: Seq<Point>,
    pos: Point,
) -> (fresh: Entity)
    requires
        adds(before, mid, added, spawns),
        spawned_any(mid, after, pos),
    ensures
        adds(before, after, added.push(fresh), spawns.push(pos)),
{
    let fresh = lemma_spawned_any(mid, after, pos);
    let longer = added.push(fresh);
    let places = spawns.push(pos);
    assert forall|i: int| 0 <= i < longer.len() implies !before.contains_key(#[trigger] longer[i])
        && after.contains_key(longer[i]) && is_spawn_at(after[longer[i]], places[i]) by {
        if i < added.len() {
            assert(longer[i] == added[i]);
            assert(mid.contains_key(added[i]));
        }
    }
    assert forall|i: int, j: int| 0 <= i < j < longer.len() implies longer[i] != longer[j] by {
        assert(longer[i] == added[i]);
        assert(mid.contains_key(added[i]));
        if j < added.len() {
            assert(longer[j] == added[j]);
        }
    }
    assert forall|entity: Entity| #[trigger] after.contains_key(entity) implies before.contains_key(
        entity,
    ) || longer.contains(entity) by {
        if entity == fresh {
            assert(longer[added.len() as int] == fresh);
        } else if !before.contains_key(entity) {
            assert(mid.contains_key(entity));
            let i = choose|i: int| 0 <= i < added.len() && added[i] == entity;
            assert(longer[i] == entity);
        }
    }
    fresh
}

/// One spawn adds one entity, an item or a monster at `pos`, and keeps
/// the others as they were.
pub proof fn lemma_spawned_any(
    before: Map<Entity, EntityData>,
    after: Map<Entity, EntityData>,
    pos: Point,
) -> (fresh: Entity)
    requires
        spawned_any(before, after, pos),
    ensures
        !before.contains_key(fresh),
        is_spawn_at(after[fresh], pos),
        after == before.insert(fresh, after[fresh]),
{
    if spawned(before, after, potion_at(pos)) {
        choose|entity: Entity| pushed(before, after, entity, potion_at(pos))
    } else if spawned(before, after, mapper_at(pos)) {
        choose|entity: Entity| pushed(before, after, entity, mapper_at(pos))
    } else if spawned(before, after, goblin_at(pos)) {
        choose|entity: Entity| pushed(before, after, entity, goblin_at(pos))
    } else {
        choose|entity: Entity| pushed(before, after, entity, orc_at(pos))
    }
}

/// The dice of one throw: how many dice, and how many sides each has.
#[derive(Clone, Copy, PartialEq, Eq, Structural, Debug)]
pub struct Dice {
    pub n: i32,
    pub die_type: i32,
}

/// The dice that decide on the kind of a monster: one die of ten sides.
pub fn monster_dice() -> (dice: Dice)
    ensures
        dice == (Dice { n: 1, die_type: 10 }),
{
    Dice { n: 1, die_type: 10 }
}

/// The dice that decide between an item and a monster: one die of six
/// sides.
pub fn entity_dice() -> (dice: Dice)
    ensures
        dice == (Dice { n: 1, die_type: 6 }),
{
    Dice { n: 1, die_type: 6 }
}

/// White on black, with the glyph of `c`.
fn white_on_black(c: char) -> (render: Render)
    requires
        32 <= c as u32 <= 126,
    ensures
        render == drawn_as(c),
{
    Render { color: ColorPair::new(Rgb::white(), Rgb::black()), glyph: to_cp437(c) }
}

/// Puts the amulet that wins the game at `pos`.
pub fn spawn_amulet_of_yala(ecs: &mut World, pos: Point)
    ensures
        spawned(entities(*old(ecs)), entities(*final(ecs)), amulet_at(pos)),
{
    let name = Name("Amulet of Yala".to_string());
    let entity = push_amulet(ecs, pos, white_on_black('|'), name);
    assert(pushed(entities(*old(ecs)), entities(*ecs), entity, amulet_at(pos)));
}

/// Puts a healing potion at `pos`.
pub fn spawn_healing_potion(ecs: &mut World, pos: Point)
    ensures
        spawned(entities(*old(ecs)), entities(*final(ecs)), potion_at(pos)),
{
    let name = Name("Healing Potion".to_string());
    let entity = push_healing(ecs, ProvidesHealing { amount: 6 }, pos, white_on_black('!'), name);
    assert(pushed(entities(*old(ecs)), entities(*ecs), entity, potion_at(pos)));
}

/// Puts a dungeon map at `pos`.
pub fn spawn_magic_mapper(ecs: &mut World, pos: Point)
    ensures
        spawned(entities(*old(ecs)), entities(*final(ecs)), mapper_at(pos)),
{
    let name = Name("Dungeon Map".to_string());
    let entity = push_mapper(ecs, pos, white_on_black('{'), name);
    assert(pushed(entities(*old(ecs)), entities(*ecs), entity, mapper_at(pos)));
}

/// Puts the player at `pos`, as they start the game.
pub fn spawn_player(ecs: &mut World, pos: Point)
    ensures
        spawned(entities(*old(ecs)), entities(*final(ecs)), player_at(pos)),
{
    let entity = push_player(
        ecs,
        Player { map_level: 0 },
        pos,
        white_on_black('@'),
        Health { current: 20, max: 20 },
        FieldOfView::new(8),
    );
    assert(pushed(entities(*old(ecs)), entities(*ecs), entity, player_at(pos)));
}

/// Puts at `pos` the monster that `roll` stands for.
pub fn spawn_monster_rolled(ecs: &mut World, pos: Point, roll: i32)
    ensures
        spawned(entities(*old(ecs)), entities(*final(ecs)), monster_for(roll as int, pos)),
{
    let (hp, name, glyph) = if 1 <= roll && roll <= 8 {
        goblin()
    } else {
        orc()
    };
    let render = Render { color: ColorPair::new(Rgb::white(), Rgb::black()), glyph };
    let entity = push_monster(
        ecs,
        pos,
        render,
        Health { current: hp, max: hp },
        Name(name),
        FieldOfView::new(6),
    );
    assert(pushed(entities(*old(ecs)), entities(*ecs), entity, monster_for(roll as int, pos)));
}

/// Puts a monster at `pos`: it rolls a ten-sided die, and a goblin comes
/// for 1 to 8, an orc for 9 and 10.
pub fn spawn_monster(ecs: &mut World, pos: Point, rng: &mut RandomNumberGenerator)
    ensures
        spawned_monster(entities(*old(ecs)), entities(*final(ecs)), pos),
{
    let dice = monster_dice();
    let roll = roll_dice(rng, dice.n, dice.die_type);
    spawn_monster_rolled(ecs, pos, roll);
}

/// Puts at `pos` what `roll` stands for: a healing potion for 1, a
/// dungeon map for 2, and a monster, drawn with `rng`, for any other roll.
pub fn spawn_entity_rolled(
    ecs: &mut World,
    pos: Point,
    roll: i32,
    rng: &mut RandomNumberGenerator,
)
    ensures
        roll == 1 ==> spawned(entities(*old(ecs)), entities(*final(ecs)), potion_at(pos)),
        roll == 2 ==> spawned(entities(*old(ecs)), entities(*final(ecs)), mapper_at(pos)),
        roll != 1 && roll != 2 ==> spawned_monster(
            entities(*old(ecs)),
            entities(*final(ecs)),
            pos,
        ),
{
    if roll == 1 {
        spawn_healing_potion(ecs, pos)
    } else if roll == 2 {
        spawn_magic_mapper(ecs, pos)
    } else {
        spawn_monster(ecs, pos, rng)
    }
}

/// Puts an item or a monster at `pos`: it rolls a six-sided die, and a
/// healing potion comes for 1, a dungeon map for 2, a monster for 3 to 6.
pub fn spawn_entity(ecs: &mut World, pos: Point, rng: &mut RandomNumberGenerator)
    ensures
        spawned_any(entities(*old(ecs)), entities(*final(ecs)), pos),
{
    let dice = entity_dice();
    let roll = roll_dice(rng, dice.n, dice.die_type);
    spawn_entity_rolled(ecs, pos, roll, rng);
}

/// Puts an item or a monster at each of `spawns`, in their order.
pub fn spawn_all(ecs: &mut World, spawns: &Vec<Point>, rng: &mut RandomNumberGenerator)
    ensures
        populated(entities(*old(ecs)), entities(*final(ecs)), spawns@),
{
    let ghost mut added: Seq<Entity> = Seq::empty();
    let mut i: usize = 0;
    while i < spawns.len()
        invariant
            i <= spawns@.len(),
            adds(entities(*old(ecs)), entities(*ecs), added, spawns@.take(i as int)),
        decreases spawns@.len() - i,
    {
        let ghost mid = entities(*ecs);
        spawn_entity(ecs, spawns[i], rng);
        proof {
            let fresh = lemma_adds_one(
                entities(*old(ecs)),
                mid,
                entities(*ecs),
                added,
                spawns@.take(i as int),
                spawns@[i as int],
            );
            assert(spawns@.take(i as int).push(spawns@[i as int]) == spawns@.take(i + 1));
            added = added.push(fresh);
        }
        i += 1;
    }
    assert(spawns@.take(spawns@.len() as int) == spawns@);
}

/// Hit points, name and glyph of a goblin.
pub fn goblin() -> (kind: (i32, String, u16))
    ensures
        kind.0 == 1,
        kind.1@ == "Goblin"@,
        kind.2 == 'g' as u16,
{
    (1, "Goblin".to_string(), to_cp437('g'))
}

/// Hit points, name and glyph of an orc.
pub fn orc() -> (kind: (i32, String, u16))
    ensures
        kind.0 == 2,
        kind.1@ == "Orc"@,
        kind.2 == 'o' as u16,
{
    (2, "Orc".to_string(), to_cp437('o'))
}

} // verus!
