//! Rules engine of a cooperative pandemic board game.
//!
//! The world map, the two card decks, the players and their hands, the disease
//! cubes and the turn sequence are plain data; every operation on them carries
//! a contract that Verus proves.
//!
//! `map` holds the 48 cities and their links, `deck` the piles of cards,
//! `player_card`, `infection_card` and `role` the three kinds of cards,
//! `board` the cubes, the research stations and the chains of outbreaks,
//! `player` the hands and the eight actions, `game` the sequence of a turn
//! and the end of the game, `notice` what a game tells those who watch it,
//! and `chance` the dice.

pub mod board;
pub mod chance;
pub mod common;
pub mod deck;
pub mod game;
pub mod infection_card;
pub mod map;
pub mod notice;
pub mod player;
pub mod player_card;
pub mod role;
