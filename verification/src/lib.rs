//! A two-player game of Battleship played as a state channel of
//! zero-knowledge proofs: the boards of the players, the circuits that check
//! a board, a shot and each step of the channel, and what those circuits
//! accept and expose.
pub mod address;
pub mod board;
pub mod circuits;
pub mod error;
pub mod field;
pub mod gadgets;
pub mod message;
pub mod packing;
pub mod plonk;
pub mod prime;
pub mod render;
pub mod ship;
