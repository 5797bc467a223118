//! Flashcard-style drawing of ordered line pairs: every ordered pair of
//! unequal lines of a text, shuffled, and stepped through one at a time.

pub mod config;
pub mod pairing;
pub mod widgets;
