use dungeoncrawl::components::Health;
use dungeoncrawl::map::Point;
use dungeoncrawl::systems::end_turn::end_turn;
use dungeoncrawl::turn_state::{Command, TurnState};

fn resolve(state: TurnState, hp: i32, player: Point, amulet: Option<Point>) -> TurnState {
    let mut turn_state = state;
    let players = vec![(Health { current: hp, max: 20 }, player)];
    end_turn(&mut turn_state, &players, amulet);
    turn_state
}

#[test]
fn player_turn_is_followed_by_monster_turn() {
    let next = resolve(TurnState::PlayerTurn, 20, Point::new(1, 1), Some(Point::new(5, 5)));
    assert_eq!(next, TurnState::MonsterTurn);
}

#[test]
fn monster_turn_is_followed_by_awaiting_input() {
    let next = resolve(TurnState::MonsterTurn, 20, Point::new(1, 1), Some(Point::new(5, 5)));
    assert_eq!(next, TurnState::AwaitingInput);
}

#[test]
fn awaiting_input_is_not_resolved() {
    let here = Point::new(1, 1);
    assert_eq!(resolve(TurnState::AwaitingInput, 20, here, None), TurnState::AwaitingInput);
    assert_eq!(resolve(TurnState::AwaitingInput, 0, here, None), TurnState::AwaitingInput);
    assert_eq!(resolve(TurnState::AwaitingInput, 20, here, Some(here)), TurnState::AwaitingInput);
}

#[test]
fn defeat_after_monster_turn() {
    let here = Point::new(3, 3);
    assert_eq!(resolve(TurnState::MonsterTurn, 0, here, None), TurnState::GameOver);
    assert_eq!(resolve(TurnState::MonsterTurn, 0, here, Some(Point::new(9, 9))), TurnState::GameOver);
    assert_eq!(resolve(TurnState::MonsterTurn, -4, here, Some(Point::new(9, 9))), TurnState::GameOver);
    assert_eq!(resolve(TurnState::MonsterTurn, 1, here, Some(Point::new(9, 9))), TurnState::AwaitingInput);
}

#[test]
fn defeat_wins_over_the_amulet() {
    let here = Point::new(3, 3);
    assert_eq!(resolve(TurnState::MonsterTurn, 0, here, Some(here)), TurnState::GameOver);
    assert_eq!(resolve(TurnState::PlayerTurn, 0, here, Some(here)), TurnState::GameOver);
}

#[test]
fn victory_after_player_turn() {
    let here = Point::new(3, 3);
    assert_eq!(resolve(TurnState::PlayerTurn, 20, here, Some(here)), TurnState::Victory);
    assert_eq!(resolve(TurnState::MonsterTurn, 1, here, Some(here)), TurnState::Victory);
    assert_eq!(resolve(TurnState::PlayerTurn, 20, here, Some(Point::new(3, 4))), TurnState::MonsterTurn);
    assert_eq!(resolve(TurnState::PlayerTurn, 20, here, None), TurnState::MonsterTurn);
}

#[test]
fn other_states_stay_unless_the_game_ends() {
    let here = Point::new(3, 3);
    assert_eq!(resolve(TurnState::GameOver, 20, here, None), TurnState::GameOver);
    assert_eq!(resolve(TurnState::Victory, 20, here, None), TurnState::Victory);
    assert_eq!(resolve(TurnState::NextLevel, 20, here, None), TurnState::NextLevel);
    assert_eq!(resolve(TurnState::NextLevel, 0, here, None), TurnState::GameOver);
}

#[test]
fn any_defeated_player_ends_the_game() {
    let mut turn_state = TurnState::PlayerTurn;
    let amulet = Point::new(7, 7);
    let players = vec![
        (Health { current: 5, max: 20 }, amulet),
        (Health { current: 0, max: 20 }, Point::new(1, 1)),
    ];
    end_turn(&mut turn_state, &players, Some(amulet));
    assert_eq!(turn_state, TurnState::GameOver);

    let mut turn_state = TurnState::PlayerTurn;
    let players = vec![
        (Health { current: 5, max: 20 }, Point::new(1, 1)),
        (Health { current: 3, max: 20 }, amulet),
    ];
    end_turn(&mut turn_state, &players, Some(amulet));
    assert_eq!(turn_state, TurnState::Victory);
}

#[test]
fn commands_ask_for_orthogonal_steps() {
    assert_eq!(Command::Left.delta(), Some(Point::new(-1, 0)));
    assert_eq!(Command::Right.delta(), Some(Point::new(1, 0)));
    assert_eq!(Command::Up.delta(), Some(Point::new(0, -1)));
    assert_eq!(Command::Down.delta(), Some(Point::new(0, 1)));
    assert_eq!(Command::Restart.delta(), None);
}
