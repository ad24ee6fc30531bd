//! Rules engine for heads-up poker: five-card hand evaluation and comparison,
//! best-hand selection, and the betting state machine.

pub mod card;
pub mod hand;
pub mod hand_type;
pub mod game;
pub mod game_model;
pub mod game_laws;
