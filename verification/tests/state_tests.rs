use bracket_lib::prelude::RandomNumberGenerator;
use dungeoncrawl::components::{AmuletOfYala, Carried, FieldOfView, Item, Name, Player};
use dungeoncrawl::map::{map_idx, Point, TileType};
use dungeoncrawl::map_builder::MapBuilder;
use dungeoncrawl::spawner::{spawn_healing_potion, spawn_monster_rolled, spawn_player};
use dungeoncrawl::state::{
    last_level, left_behind, mark_exit, prune, remove_all, Action, State, FINAL_LEVEL,
};
use dungeoncrawl::turn_state::{Command, TurnState};
use legion::{Entity, EntityStore, IntoQuery, World};

fn player_of(world: &World) -> Entity {
    let players: Vec<Entity> = <(Entity, &Player)>::query().iter(world).map(|(e, _)| *e).collect();
    assert_eq!(players.len(), 1);
    players[0]
}

fn exits_of(state: &State) -> Vec<usize> {
    (0..state.map.tiles.len()).filter(|idx| state.map.tiles[*idx] == TileType::Exit).collect()
}

fn amulets_of(state: &State) -> Vec<Point> {
    <(&AmuletOfYala, &Point)>::query().iter(&state.ecs).map(|(_, pos)| *pos).collect()
}

fn all_of(world: &World) -> Vec<Entity> {
    <Entity>::query().iter(world).copied().collect()
}

#[test]
fn a_new_session_waits_for_input_on_a_level_with_one_exit() {
    let mut rng = RandomNumberGenerator::seeded(1);
    let state = State::new(&mut rng);
    assert_eq!(state.turn_state, TurnState::AwaitingInput);
    assert_eq!(exits_of(&state).len(), 1);
    assert!(amulets_of(&state).is_empty());
    let player = player_of(&state.ecs);
    let entry = state.ecs.entry_ref(player).unwrap();
    assert_eq!(*entry.get_component::<Player>().unwrap(), Player { map_level: 0 });
    assert_eq!(*entry.get_component::<Point>().unwrap(), state.player_start);
    assert!(state.ecs.len() > 1);
}

#[test]
fn new_levels_have_no_tile_revealed() {
    let mut rng = RandomNumberGenerator::seeded(21);
    let mut state = State::new(&mut rng);
    assert_eq!(state.map.revealed_tiles.len(), 4000);
    assert!(state.map.revealed_tiles.iter().all(|seen| !*seen));
    for idx in 0..200 {
        state.map.revealed_tiles[idx] = true;
    }
    state.advance_level(&mut rng);
    assert!(state.map.revealed_tiles.iter().all(|seen| !*seen));
    state.map.revealed_tiles[7] = true;
    state.reset_game(&mut rng);
    assert!(state.map.revealed_tiles.iter().all(|seen| !*seen));
    state.map.revealed_tiles[9] = true;
    state.turn_state = TurnState::Victory;
    state.tick(Some(Command::Restart), &mut rng);
    assert!(state.map.revealed_tiles.iter().all(|seen| !*seen));
    state.map.revealed_tiles[11] = true;
    state.turn_state = TurnState::NextLevel;
    state.tick(None, &mut rng);
    assert!(state.map.revealed_tiles.iter().all(|seen| !*seen));
}

#[test]
fn reset_starts_as_a_new_session() {
    let mut rng = RandomNumberGenerator::seeded(22);
    let mut state = State::new(&mut rng);
    state.advance_level(&mut rng);
    state.advance_level(&mut rng);
    let old_player = player_of(&state.ecs);
    state.ecs.push((Item, Name("Dungeon Map".to_string()), Carried(old_player)));
    state.turn_state = TurnState::GameOver;
    state.reset_game(&mut rng);
    assert_eq!(state.turn_state, TurnState::AwaitingInput);
    assert!(!state.ecs.contains(old_player));
    let player = player_of(&state.ecs);
    let entry = state.ecs.entry_ref(player).unwrap();
    assert_eq!(*entry.get_component::<Player>().unwrap(), Player { map_level: 0 });
    assert_eq!(<&Carried>::query().iter(&state.ecs).count(), 0);
    assert!(amulets_of(&state).is_empty());
    assert_eq!(exits_of(&state).len(), 1);
}

#[test]
fn the_last_level_counts() {
    assert_eq!(last_level(&Vec::new()), 0);
    assert_eq!(last_level(&vec![3]), 3);
    assert_eq!(last_level(&vec![3, 7]), 7);
}

#[test]
fn the_amulet_is_an_item_at_the_goal() {
    let mut rng = RandomNumberGenerator::seeded(23);
    let mut state = State::enter(MapBuilder::plain(), &mut rng);
    let player = player_of(&state.ecs);
    state.advance_into(MapBuilder::plain(), player, &mut rng);
    assert_eq!(<&AmuletOfYala>::query().iter(&state.ecs).count(), 0);
    state.advance_into(MapBuilder::plain(), player, &mut rng);
    let amulets: Vec<Point> = <(&AmuletOfYala, &Item, &Point)>::query()
        .iter(&state.ecs)
        .map(|(_, _, pos)| *pos)
        .collect();
    assert_eq!(amulets, vec![Point::new(79, 49)]);
    assert_eq!(<&AmuletOfYala>::query().iter(&state.ecs).count(), 1);
    assert_ne!(amulets[0], state.player_start);
}

#[test]
fn enter_follows_the_level() {
    let mut rng = RandomNumberGenerator::seeded(2);
    let level = MapBuilder::plain();
    let state = State::enter(level, &mut rng);
    assert_eq!(state.player_start, Point::new(0, 0));
    assert_eq!(exits_of(&state), vec![map_idx(79, 49)]);
    assert_eq!(state.ecs.len(), 51);
    let mut spots: Vec<Point> = <&Point>::query().iter(&state.ecs).copied().collect();
    spots.sort_by_key(|point| point.x);
    assert_eq!(spots[0], Point::new(0, 0));
    for i in 0..50 {
        assert_eq!(spots[i + 1], Point::new(15 + i as i32, 25));
    }
}

#[test]
fn mark_exit_changes_one_tile() {
    let mut level = MapBuilder::plain();
    mark_exit(&mut level.map, Point::new(7, 2));
    for idx in 0..level.map.tiles.len() {
        let expected = if idx == map_idx(7, 2) { TileType::Exit } else { TileType::Floor };
        assert_eq!(level.map.tiles[idx], expected);
    }
}

#[test]
fn descend_takes_a_player_one_level_down() {
    let mut player = Player { map_level: 4 };
    let mut pos = Point::new(9, 9);
    let level = player.descend(&mut pos, Point::new(2, 3));
    assert_eq!(level, 5);
    assert_eq!(player, Player { map_level: 5 });
    assert_eq!(pos, Point::new(2, 3));
}

#[test]
fn prune_keeps_the_player_and_what_they_carry() {
    let mut world = World::default();
    spawn_player(&mut world, Point::new(1, 1));
    let player = player_of(&world);
    spawn_healing_potion(&mut world, Point::new(2, 2));
    spawn_monster_rolled(&mut world, Point::new(3, 3), 2);
    spawn_monster_rolled(&mut world, Point::new(4, 4), 9);
    let monster = all_of(&world)[2];
    let carried = world.push((Item, Name("Dungeon Map".to_string()), Carried(player)));
    let stolen = world.push((Item, Name("Healing Potion".to_string()), Carried(monster)));
    let before = all_of(&world);
    assert_eq!(before.len(), 6);
    prune(&mut world, player);
    let mut after = all_of(&world);
    after.sort_by_key(|entity| format!("{:?}", entity));
    let mut expected = vec![player, carried];
    expected.sort_by_key(|entity| format!("{:?}", entity));
    assert_eq!(after, expected);
    assert!(!world.contains(stolen));
    let entry = world.entry_ref(carried).unwrap();
    assert_eq!(entry.get_component::<Name>().unwrap().0, "Dungeon Map");
    assert_eq!(entry.get_component::<Carried>().unwrap().0, player);
}

#[test]
fn left_behind_lists_what_the_player_does_not_carry() {
    let mut world = World::default();
    spawn_player(&mut world, Point::new(1, 1));
    let player = player_of(&world);
    spawn_monster_rolled(&mut world, Point::new(3, 3), 2);
    let monster = all_of(&world).into_iter().find(|entity| *entity != player).unwrap();
    let carried = world.push((Item, Name("Dungeon Map".to_string()), Carried(player)));
    let lying = world.push((Item, Name("Healing Potion".to_string()), Point::new(4, 4)));
    let mut doomed = left_behind(&world, player);
    doomed.sort_by_key(|entity| format!("{:?}", entity));
    let mut expected = vec![monster, lying];
    expected.sort_by_key(|entity| format!("{:?}", entity));
    assert_eq!(doomed, expected);
    assert_eq!(world.len(), 4);
    assert!(world.contains(carried));
}

#[test]
fn remove_all_removes_the_listed_entities() {
    let mut world = World::default();
    spawn_player(&mut world, Point::new(1, 1));
    let player = player_of(&world);
    let first = world.push((Item, Point::new(2, 2)));
    let second = world.push((Item, Point::new(3, 3)));
    let third = world.push((Item, Point::new(4, 4)));
    remove_all(&mut world, &vec![first, third, first]);
    assert!(world.contains(player));
    assert!(world.contains(second));
    assert!(!world.contains(first));
    assert!(!world.contains(third));
    assert_eq!(world.len(), 2);
    remove_all(&mut world, &Vec::new());
    assert_eq!(world.len(), 2);
}

#[test]
fn advancing_prunes_the_previous_level() {
    let mut rng = RandomNumberGenerator::seeded(4);
    let mut state = State::new(&mut rng);
    let player = player_of(&state.ecs);
    let carried = state.ecs.push((Item, Name("Healing Potion".to_string()), Carried(player)));
    let previous = all_of(&state.ecs);
    assert!(previous.len() > 2);
    state.turn_state = TurnState::NextLevel;
    let depth = state.advance_level(&mut rng);
    assert_eq!(depth, 1);
    assert!(state.ecs.contains(player));
    assert!(state.ecs.contains(carried));
    for entity in previous {
        if entity != player && entity != carried {
            assert!(!state.ecs.contains(entity));
        }
    }
    assert_eq!(player_of(&state.ecs), player);
    let entry = state.ecs.entry_ref(player).unwrap();
    assert_eq!(*entry.get_component::<Player>().unwrap(), Player { map_level: 1 });
    assert_eq!(*entry.get_component::<Point>().unwrap(), state.player_start);
    assert!(entry.get_component::<FieldOfView>().unwrap().is_dirty);
    assert_eq!(state.turn_state, TurnState::AwaitingInput);
}

#[test]
fn advancing_marks_fields_of_view_dirty() {
    let mut rng = RandomNumberGenerator::seeded(6);
    let mut state = State::new(&mut rng);
    for fov in <&mut FieldOfView>::query().iter_mut(&mut state.ecs) {
        fov.is_dirty = false;
    }
    state.advance_level(&mut rng);
    let player = player_of(&state.ecs);
    let entry = state.ecs.entry_ref(player).unwrap();
    assert!(entry.get_component::<FieldOfView>().unwrap().is_dirty);
}

#[test]
fn the_final_level_holds_the_amulet_and_no_exit() {
    let mut rng = RandomNumberGenerator::seeded(8);
    let mut state = State::new(&mut rng);
    assert_eq!(exits_of(&state).len(), 1);

    let first = state.advance_level(&mut rng);
    assert_eq!(first, 1);
    assert_eq!(exits_of(&state).len(), 1);
    assert!(amulets_of(&state).is_empty());

    let second = state.advance_level(&mut rng);
    assert_eq!(second, FINAL_LEVEL);
    assert!(exits_of(&state).is_empty());
    assert_eq!(amulets_of(&state).len(), 1);

    let third = state.advance_level(&mut rng);
    assert_eq!(third, 3);
    assert_eq!(exits_of(&state).len(), 1);
    assert!(amulets_of(&state).is_empty());
}

#[test]
fn advance_into_puts_the_goal_where_the_level_says() {
    let mut rng = RandomNumberGenerator::seeded(10);
    let mut state = State::enter(MapBuilder::plain(), &mut rng);
    let player = player_of(&state.ecs);
    let depth = state.advance_into(MapBuilder::plain(), player, &mut rng);
    assert_eq!(depth, 1);
    assert_eq!(exits_of(&state), vec![map_idx(79, 49)]);
    assert_eq!(state.ecs.len(), 51);
    let depth = state.advance_into(MapBuilder::plain(), player, &mut rng);
    assert_eq!(depth, 2);
    assert!(exits_of(&state).is_empty());
    assert_eq!(amulets_of(&state), vec![Point::new(79, 49)]);
    assert_eq!(state.ecs.len(), 52);
}

#[test]
fn idle_frames_change_nothing() {
    let mut rng = RandomNumberGenerator::seeded(12);
    let mut state = State::new(&mut rng);
    let tiles = state.map.tiles.clone();
    let entities = all_of(&state.ecs);
    for _ in 0..5 {
        assert_eq!(state.tick(None, &mut rng), Action::Input(None));
        assert_eq!(state.tick(Some(Command::Restart), &mut rng), Action::Input(None));
        assert_eq!(state.turn_state, TurnState::AwaitingInput);
        assert_eq!(state.map.tiles, tiles);
        assert_eq!(all_of(&state.ecs), entities);
    }
}

#[test]
fn a_step_starts_the_player_turn() {
    let mut rng = RandomNumberGenerator::seeded(13);
    let mut state = State::new(&mut rng);
    let action = state.tick(Some(Command::Left), &mut rng);
    assert_eq!(action, Action::Input(Some(Point::new(-1, 0))));
    assert_eq!(state.turn_state, TurnState::PlayerTurn);
    assert_eq!(state.tick(Some(Command::Up), &mut rng), Action::PlayerTurn);
    assert_eq!(state.turn_state, TurnState::PlayerTurn);
    state.turn_state = TurnState::MonsterTurn;
    assert_eq!(state.tick(None, &mut rng), Action::MonsterTurn);
    assert_eq!(state.turn_state, TurnState::MonsterTurn);
}

#[test]
fn only_a_restart_leaves_the_end_screens() {
    let mut rng = RandomNumberGenerator::seeded(14);
    let mut state = State::new(&mut rng);
    state.advance_level(&mut rng);
    let player = player_of(&state.ecs);
    state.turn_state = TurnState::GameOver;
    assert_eq!(state.tick(Some(Command::Down), &mut rng), Action::GameOver);
    assert_eq!(state.turn_state, TurnState::GameOver);
    assert!(state.ecs.contains(player));
    assert_eq!(state.tick(Some(Command::Restart), &mut rng), Action::GameOver);
    assert_eq!(state.turn_state, TurnState::AwaitingInput);
    assert!(!state.ecs.contains(player));
    let fresh = player_of(&state.ecs);
    let entry = state.ecs.entry_ref(fresh).unwrap();
    assert_eq!(*entry.get_component::<Player>().unwrap(), Player { map_level: 0 });

    state.turn_state = TurnState::Victory;
    assert_eq!(state.tick(None, &mut rng), Action::Victory);
    assert_eq!(state.turn_state, TurnState::Victory);
    assert_eq!(state.tick(Some(Command::Restart), &mut rng), Action::Victory);
    assert_eq!(state.turn_state, TurnState::AwaitingInput);
}

#[test]
fn the_next_level_state_advances() {
    let mut rng = RandomNumberGenerator::seeded(15);
    let mut state = State::new(&mut rng);
    state.turn_state = TurnState::NextLevel;
    assert_eq!(state.tick(None, &mut rng), Action::NextLevel);
    assert_eq!(state.turn_state, TurnState::AwaitingInput);
    let player = player_of(&state.ecs);
    let entry = state.ecs.entry_ref(player).unwrap();
    assert_eq!(*entry.get_component::<Player>().unwrap(), Player { map_level: 1 });
}
