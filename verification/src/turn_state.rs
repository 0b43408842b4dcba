//! The turn state: which phase of a turn the game is in.

use crate::map::Point;
use vstd::prelude::*;

verus! {

/// What the player asks for in a frame.
#[derive(Clone, Copy, PartialEq, Eq, Structural, Debug)]
pub enum Command {
    Left,
    Right,
    Up,
    Down,
    Restart,
}

impl Command {
    /// The step that the command asks for, where it asks for one.
    pub open spec fn step(self) -> Option<Point> {
        match self {
            Command::Left => Some(Point { x: -1i32, y: 0 }),
            Command::Right => Some(Point { x: 1, y: 0 }),
            Command::Up => Some(Point { x: 0, y: -1i32 }),
            Command::Down => Some(Point { x: 0, y: 1 }),
            Command::Restart => None,
        }
    }

    /// The step that the command asks for, where it asks for one.
    pub fn delta(self) -> (delta: Option<Point>)
        ensures
            delta == self.step(),
    {
        match self {
            Command::Left => Some(Point { x: -1, y: 0 }),
            Command::Right => Some(Point { x: 1, y: 0 }),
            Command::Up => Some(Point { x: 0, y: -1 }),
            Command::Down => Some(Point { x: 0, y: 1 }),
            Command::Restart => None,
        }
    }
}

/// The step that the player takes while the game waits for input: that
/// of a command for a step, and none without such a command.
pub open spec fn asked_step(command: Option<Command>) -> Option<Point> {
    match command {
        Some(asked) => asked.step(),
        None => None,
    }
}

/// The phase that the next frame runs.
#[derive(Clone, Copy, PartialEq, Eq, Structural, Debug)]
pub enum TurnState {
    AwaitingInput,
    PlayerTurn,
    MonsterTurn,
    GameOver,
    Victory,
    NextLevel,
}

impl TurnState {
    /// The state that follows this one when a phase has run and nothing
    /// ends the game: the monsters move after the player, and the game
    /// waits for input after the monsters. Any other state stays.
    pub open spec fn after_phase(self) -> TurnState {
        match self {
            TurnState::PlayerTurn => TurnState::MonsterTurn,
            TurnState::MonsterTurn => TurnState::AwaitingInput,
            other => other,
        }
    }

    /// The state that follows this one when the input of a frame has been
    /// looked at: the player's turn where the game waited and a step is
    /// asked for. Any other state stays.
    pub open spec fn after_input(self, command: Option<Command>) -> TurnState {
        if self == TurnState::AwaitingInput && asked_step(command) is Some {
            TurnState::PlayerTurn
        } else {
            self
        }
    }

    /// The state after `frames` frames in each of which no step was asked
    /// for.
    pub open spec fn after_idle_frames(self, frames: nat) -> TurnState
        decreases frames,
    {
        if frames == 0 {
            self
        } else {
            self.after_idle_frames((frames - 1) as nat).after_input(None)
        }
    }

    /// Whether the game has ended and only a restart leaves the state.
    pub open spec fn is_terminal(self) -> bool {
        self == TurnState::GameOver || self == TurnState::Victory
    }
}

/// While no step is asked for, the game goes on waiting for input,
/// however many frames pass; a command to restart is no step.
pub proof fn lemma_idle_waits(frames: nat)
    ensures
        TurnState::AwaitingInput.after_idle_frames(frames) == TurnState::AwaitingInput,
        TurnState::AwaitingInput.after_input(Some(Command::Restart)) == TurnState::AwaitingInput,
    decreases frames,
{
    if frames > 0 {
        lemma_idle_waits((frames - 1) as nat);
    }
}

} // verus!
