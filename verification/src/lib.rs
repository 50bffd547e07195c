//! A verified engine for the two-player card game War.
//!
//! A `Game` owns a `Deck`, two `Player`s and a table pile, and resolves
//! rounds (including the recursive "war" tie-breaking procedure) until one
//! player holds every card. The contracts establish that cards are moved,
//! never created or lost, and that a player is dead exactly when their hand
//! is empty.

pub mod cards;
pub mod deck;
pub mod game;
pub mod player;
