//! The resolution at the end of a phase: defeat, victory, or the next
//! phase.

use crate::components::Health;
use crate::map::Point;
use crate::turn_state::TurnState;
use vstd::prelude::*;

verus! {

/// Whether some player has less than one hit point.
pub open spec fn defeated(players: Seq<(Health, Point)>) -> bool {
    exists|i: int| 0 <= i < players.len() && (#[trigger] players[i]).0.current < 1
}

/// Whether some player stands on the tile of the amulet.
pub open spec fn holds_amulet(players: Seq<(Health, Point)>, amulet_pos: Option<Point>) -> bool {
    amulet_pos is Some && exists|i: int|
        0 <= i < players.len() && (#[trigger] players[i]).1 == amulet_pos->0
}

/// The state that follows `state` when a phase has run. While the game
/// waits for input nothing is looked at. Otherwise a defeated player ends
/// the game, wherever the amulet lies; else a player on the amulet's tile
/// wins it; else the next phase follows.
pub open spec fn resolved(
    state: TurnState,
    players: Seq<(Health, Point)>,
    amulet_pos: Option<Point>,
) -> TurnState {
    if state == TurnState::AwaitingInput {
        TurnState::AwaitingInput
    } else if defeated(players) {
        TurnState::GameOver
    } else if holds_amulet(players, amulet_pos) {
        TurnState::Victory
    } else {
        state.after_phase()
    }
}

/// Decides the turn state after a phase, from the hit points and position
/// of each player and from where the amulet lies, if it is on this level.
/// The game has a player at all times.
pub fn end_turn(
    turn_state: &mut TurnState,
    players: &Vec<(Health, Point)>,
    amulet_pos: Option<Point>,
)
    requires
        players@.len() >= 1,
    ensures
        *final(turn_state) == resolved(*old(turn_state), players@, amulet_pos),
{
    let mut new_state = match *turn_state {
        TurnState::AwaitingInput => {
            return ;
        },
        TurnState::PlayerTurn => TurnState::MonsterTurn,
        TurnState::MonsterTurn => TurnState::AwaitingInput,
        other => other,
    };
    let mut lost = false;
    let mut won = false;
    let mut i: usize = 0;
    while i < players.len()
        invariant
            i <= players@.len(),
            lost == defeated(players@.take(i as int)),
            won == holds_amulet(players@.take(i as int), amulet_pos),
        decreases players@.len() - i,
    {
        let (hp, pos) = players[i];
        proof {
            let before = players@.take(i as int);
            let now = players@.take(i + 1);
            assert(now[i as int] == players@[i as int]);
            assert(forall|j: int| 0 <= j < i ==> before[j] == now[j]);
            if defeated(before) {
                let j = choose|j: int| 0 <= j < before.len() && (#[trigger] before[j]).0.current < 1;
                assert(now[j].0.current < 1);
            }
            if holds_amulet(before, amulet_pos) {
                let j = choose|j: int|
                    0 <= j < before.len() && (#[trigger] before[j]).1 == amulet_pos->0;
                assert(now[j].1 == amulet_pos->0);
            }
            if defeated(now) {
                let j = choose|j: int| 0 <= j < now.len() && (#[trigger] now[j]).0.current < 1;
                if j < i {
                    assert(before[j].0.current < 1);
                }
            }
            if holds_amulet(now, amulet_pos) {
                let j = choose|j: int| 0 <= j < now.len() && (#[trigger] now[j]).1 == amulet_pos->0;
                if j < i {
                    assert(before[j].1 == amulet_pos->0);
                }
            }
        }
        if hp.current < 1 {
            lost = true;
        }
        if let Some(amulet) = amulet_pos {
            if pos == amulet {
                won = true;
            }
        }
        i += 1;
    }
    assert(players@.take(players@.len() as int) == players@);
    if lost {
        new_state = TurnState::GameOver;
    } else if won {
        new_state = TurnState::Victory;
    }
    *turn_state = new_state;
}

} // verus!
