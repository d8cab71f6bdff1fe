//! A simulation of the card game War between two automated players.
//!
//! The engine builds a deck, shuffles and deals it, and resolves rounds
//! (with "war" escalation on equal ranks) until one hand runs out or a
//! round limit is reached.

pub mod card;
pub mod deal;
pub mod round;
pub mod game;
pub mod service;
