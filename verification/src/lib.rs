//! A deck-shuffling micro-benchmark core: a 52-card deck factory, an
//! in-place Fisher-Yates shuffle, a fixed-width bit-packed fingerprint
//! of a deck's order rendered as hexadecimal text, and the arithmetic
//! that splits a requested iteration count evenly across workers.

pub mod card;
pub mod deck;
pub mod encode;
pub mod runner;
pub mod shuffle;
