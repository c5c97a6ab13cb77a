//! Poker hand evaluation: given five to seven playing cards, find the best
//! standard poker hand they contain, the cards that make it up, and the
//! kickers that break ties against another hand of the same category.

pub mod card;
pub mod hand;
pub mod utils;
