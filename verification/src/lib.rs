//! A goldfishing engine for one fixed trading-card deck: a card model,
//! a battlefield state engine, a mana payment solver, a turn-structured
//! simulation, and the sequential core of a Monte Carlo harness.

pub mod color;
pub mod mana_cost;
pub mod types;
pub mod abilities;
pub mod card;
pub mod player;
pub mod battlefield;
pub mod cast_spell;
pub mod play_land;
pub mod deck;
pub mod simulation;
pub mod parallelism;
mod shuffle;
