//! Knucklebones: two players place dice on boards of three columns, and a
//! die knocks the dice of its face out of the column opposite. The crate
//! holds the rules of the game and what agents that learn it decide on: the
//! encodings of a position, the reward of a move and the choice of an action.

pub mod ai_agent;
pub mod dice_game;
pub mod dqn_agent;
mod random;
