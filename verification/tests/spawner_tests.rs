use bracket_lib::prelude::RandomNumberGenerator;
use dungeoncrawl::components::{
    AmuletOfYala, ChasingPlayer, ColorPair, Enemy, FieldOfView, Health, Item, Name, Player,
    ProvidesDungeonMap, ProvidesHealing, Render, Rgb,
};
use dungeoncrawl::map::Point;
use dungeoncrawl::spawner::{
    entity_dice, goblin, monster_dice, orc, spawn_all, spawn_amulet_of_yala, spawn_entity, spawn_entity_rolled,
    spawn_healing_potion, spawn_magic_mapper, spawn_monster, spawn_monster_rolled, spawn_player,
};
use legion::{Entity, EntityStore, IntoQuery, World};

fn white_on_black() -> ColorPair {
    ColorPair {
        fg: Rgb { r: 255, g: 255, b: 255 },
        bg: Rgb { r: 0, g: 0, b: 0 },
    }
}

fn only_entity(world: &World) -> Entity {
    let all: Vec<Entity> = <Entity>::query().iter(world).copied().collect();
    assert_eq!(all.len(), 1);
    all[0]
}

#[test]
fn spawn_player_makes_one_player() {
    let mut world = World::default();
    let pos = Point::new(4, 9);
    spawn_player(&mut world, pos);
    assert_eq!(world.len(), 1);
    let entity = only_entity(&world);
    let entry = world.entry_ref(entity).unwrap();
    assert_eq!(*entry.get_component::<Player>().unwrap(), Player { map_level: 0 });
    assert_eq!(*entry.get_component::<Point>().unwrap(), pos);
    assert_eq!(*entry.get_component::<Health>().unwrap(), Health { current: 20, max: 20 });
    assert_eq!(
        *entry.get_component::<Render>().unwrap(),
        Render { color: white_on_black(), glyph: 64 }
    );
    let fov = entry.get_component::<FieldOfView>().unwrap();
    assert_eq!(fov.radius, 8);
    assert!(fov.is_dirty);
    assert!(fov.visible_tiles.is_empty());
    assert!(entry.get_component::<Enemy>().is_err());
    assert!(entry.get_component::<Item>().is_err());
    assert!(entry.get_component::<Name>().is_err());
}

#[test]
fn spawn_amulet_makes_the_amulet() {
    let mut world = World::default();
    let pos = Point::new(70, 40);
    spawn_amulet_of_yala(&mut world, pos);
    let entity = only_entity(&world);
    let entry = world.entry_ref(entity).unwrap();
    assert!(entry.get_component::<Item>().is_ok());
    assert!(entry.get_component::<AmuletOfYala>().is_ok());
    assert_eq!(*entry.get_component::<Point>().unwrap(), pos);
    assert_eq!(
        *entry.get_component::<Render>().unwrap(),
        Render { color: white_on_black(), glyph: 124 }
    );
    assert_eq!(entry.get_component::<Name>().unwrap().0, "Amulet of Yala");
    assert!(entry.get_component::<Player>().is_err());
    assert!(entry.get_component::<Health>().is_err());
}

#[test]
fn spawn_healing_potion_heals_six() {
    let mut world = World::default();
    let pos = Point::new(2, 3);
    spawn_healing_potion(&mut world, pos);
    let entity = only_entity(&world);
    let entry = world.entry_ref(entity).unwrap();
    assert!(entry.get_component::<Item>().is_ok());
    assert_eq!(*entry.get_component::<ProvidesHealing>().unwrap(), ProvidesHealing { amount: 6 });
    assert_eq!(*entry.get_component::<Point>().unwrap(), pos);
    assert_eq!(
        *entry.get_component::<Render>().unwrap(),
        Render { color: white_on_black(), glyph: 33 }
    );
    assert_eq!(entry.get_component::<Name>().unwrap().0, "Healing Potion");
    assert!(entry.get_component::<ProvidesDungeonMap>().is_err());
}

#[test]
fn spawn_magic_mapper_reveals_the_map() {
    let mut world = World::default();
    let pos = Point::new(12, 13);
    spawn_magic_mapper(&mut world, pos);
    let entity = only_entity(&world);
    let entry = world.entry_ref(entity).unwrap();
    assert!(entry.get_component::<Item>().is_ok());
    assert!(entry.get_component::<ProvidesDungeonMap>().is_ok());
    assert_eq!(*entry.get_component::<Point>().unwrap(), pos);
    assert_eq!(
        *entry.get_component::<Render>().unwrap(),
        Render { color: white_on_black(), glyph: 123 }
    );
    assert_eq!(entry.get_component::<Name>().unwrap().0, "Dungeon Map");
    assert!(entry.get_component::<ProvidesHealing>().is_err());
}

fn monster_of(roll: i32) -> (i32, String, u16) {
    let mut world = World::default();
    let pos = Point::new(20, 21);
    spawn_monster_rolled(&mut world, pos, roll);
    let entity = only_entity(&world);
    let entry = world.entry_ref(entity).unwrap();
    assert!(entry.get_component::<Enemy>().is_ok());
    assert!(entry.get_component::<ChasingPlayer>().is_ok());
    assert_eq!(*entry.get_component::<Point>().unwrap(), pos);
    let fov = entry.get_component::<FieldOfView>().unwrap();
    assert_eq!(fov.radius, 6);
    assert!(fov.is_dirty);
    let health = *entry.get_component::<Health>().unwrap();
    assert_eq!(health.current, health.max);
    let render = *entry.get_component::<Render>().unwrap();
    assert_eq!(render.color, white_on_black());
    (health.current, entry.get_component::<Name>().unwrap().0.clone(), render.glyph)
}

#[test]
fn rolls_of_one_to_eight_are_goblins() {
    for roll in 1..=8 {
        assert_eq!(monster_of(roll), (1, "Goblin".to_string(), 103));
    }
}

#[test]
fn other_rolls_are_orcs() {
    assert_eq!(monster_of(9), (2, "Orc".to_string(), 111));
    assert_eq!(monster_of(10), (2, "Orc".to_string(), 111));
    assert_eq!(monster_of(0), (2, "Orc".to_string(), 111));
}

#[test]
fn the_dice_of_the_spawner() {
    assert_eq!((monster_dice().n, monster_dice().die_type), (1, 10));
    assert_eq!((entity_dice().n, entity_dice().die_type), (1, 6));
}

#[test]
fn spawns_follow_the_dice_of_the_seed() {
    for seed in 0..40 {
        let mut dice = RandomNumberGenerator::seeded(seed);
        let kind = dice.roll_dice(1, 6);
        let monster = dice.roll_dice(1, 10);
        let mut rng = RandomNumberGenerator::seeded(seed);
        let mut world = World::default();
        spawn_entity(&mut world, Point::new(2, 2), &mut rng);
        let entity = only_entity(&world);
        let entry = world.entry_ref(entity).unwrap();
        let expected = match kind {
            1 => "Healing Potion",
            2 => "Dungeon Map",
            _ if monster <= 8 => "Goblin",
            _ => "Orc",
        };
        assert_eq!(entry.get_component::<Name>().unwrap().0, expected);
    }
}

#[test]
fn goblin_and_orc_kinds() {
    assert_eq!(goblin(), (1, "Goblin".to_string(), 103));
    assert_eq!(orc(), (2, "Orc".to_string(), 111));
}

#[test]
fn spawn_monster_makes_a_goblin_or_an_orc() {
    let mut rng = RandomNumberGenerator::seeded(11);
    let mut goblins = 0;
    let mut orcs = 0;
    for _ in 0..200 {
        let mut world = World::default();
        spawn_monster(&mut world, Point::new(1, 1), &mut rng);
        let entity = only_entity(&world);
        let entry = world.entry_ref(entity).unwrap();
        assert!(entry.get_component::<Enemy>().is_ok());
        match entry.get_component::<Name>().unwrap().0.as_str() {
            "Goblin" => {
                assert_eq!(entry.get_component::<Health>().unwrap().max, 1);
                goblins += 1;
            }
            "Orc" => {
                assert_eq!(entry.get_component::<Health>().unwrap().max, 2);
                orcs += 1;
            }
            other => panic!("unexpected monster {}", other),
        }
    }
    assert!(goblins > orcs);
    assert!(orcs > 0);
}

fn kind_of(world: &World, entity: Entity) -> &'static str {
    let entry = world.entry_ref(entity).unwrap();
    if entry.get_component::<ProvidesHealing>().is_ok() {
        "potion"
    } else if entry.get_component::<ProvidesDungeonMap>().is_ok() {
        "mapper"
    } else if entry.get_component::<Enemy>().is_ok() {
        "monster"
    } else {
        "other"
    }
}

#[test]
fn rolled_entities_follow_the_roll() {
    let mut rng = RandomNumberGenerator::seeded(5);
    let expected = ["potion", "mapper", "monster", "monster", "monster", "monster"];
    for roll in 1..=6 {
        let mut world = World::default();
        spawn_entity_rolled(&mut world, Point::new(3, 3), roll, &mut rng);
        let entity = only_entity(&world);
        assert_eq!(kind_of(&world, entity), expected[(roll - 1) as usize]);
    }
}

#[test]
fn spawn_entity_makes_items_and_monsters() {
    let mut rng = RandomNumberGenerator::seeded(3);
    let mut potions = 0;
    let mut mappers = 0;
    let mut monsters = 0;
    for _ in 0..300 {
        let mut world = World::default();
        spawn_entity(&mut world, Point::new(8, 8), &mut rng);
        let entity = only_entity(&world);
        match kind_of(&world, entity) {
            "potion" => potions += 1,
            "mapper" => mappers += 1,
            "monster" => monsters += 1,
            other => panic!("unexpected entity {}", other),
        }
    }
    assert!(potions > 0 && mappers > 0);
    assert!(monsters > potions + mappers);
}

#[test]
fn spawn_all_puts_one_entity_at_each_place() {
    let mut rng = RandomNumberGenerator::seeded(9);
    let mut world = World::default();
    spawn_player(&mut world, Point::new(0, 0));
    let places = vec![Point::new(1, 1), Point::new(2, 2), Point::new(3, 3)];
    spawn_all(&mut world, &places, &mut rng);
    assert_eq!(world.len(), 4);
    let mut found: Vec<Point> = <&Point>::query().iter(&world).copied().collect();
    found.sort_by_key(|point| point.x);
    assert_eq!(found, vec![Point::new(0, 0), Point::new(1, 1), Point::new(2, 2), Point::new(3, 3)]);
    assert_eq!(<&Player>::query().iter(&world).count(), 1);
}

#[test]
fn spawns_leave_other_entities_alone() {
    let mut world = World::default();
    spawn_player(&mut world, Point::new(5, 5));
    let player = only_entity(&world);
    spawn_healing_potion(&mut world, Point::new(6, 6));
    spawn_monster_rolled(&mut world, Point::new(7, 7), 4);
    assert_eq!(world.len(), 3);
    let entry = world.entry_ref(player).unwrap();
    assert_eq!(*entry.get_component::<Point>().unwrap(), Point::new(5, 5));
    assert_eq!(*entry.get_component::<Health>().unwrap(), Health { current: 20, max: 20 });
}
