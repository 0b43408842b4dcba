//! The systems that decide on the turn state.

pub mod end_turn;
