//! Recognition of chorded sequences of directional key presses.
//!
//! A prefix tree maps sequences of [`keys::KeyInput`] symbols to payloads, and an
//! accumulator turns the stream of key presses into those sequences, under an
//! idle window after which a partial sequence is discarded.

pub mod keys;
mod combo;
pub mod keyboard;
pub mod accumulator;
pub mod listener;
pub mod errors;
