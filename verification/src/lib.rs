//! Damage bookkeeping for a combat log parser and the decisions of the
//! Endless Mode lifecycle hooks.

pub mod constants;
pub mod events;
pub mod skill_state;
pub mod player_state;
pub mod runs;
pub mod endless;
