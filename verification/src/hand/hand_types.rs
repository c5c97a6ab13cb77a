//! The ten categories of poker hand.

use vstd::prelude::*;

verus! {

/// The category of a poker hand, from the weakest to the strongest.
#[derive(Debug, Clone, Copy, PartialEq, Eq, PartialOrd, Ord, Hash, Structural)]
pub enum HandType {
    HighCard,
    Pair,
    TwoPair,
    ThreeOfAKind,
    Straight,
    Flush,
    FullHouse,
    FourOfAKind,
    StraightFlush,
    RoyalFlush,
}

impl HandType {
    /// The strength of the category: 1 for a high card up to 10 for a royal
    /// flush.
    pub open spec fn spec_ranking(&self) -> u8 {
        match self {
            HandType::HighCard => 1,
            HandType::Pair => 2,
            HandType::TwoPair => 3,
            HandType::ThreeOfAKind => 4,
            HandType::Straight => 5,
            HandType::Flush => 6,
            HandType::FullHouse => 7,
            HandType::FourOfAKind => 8,
            HandType::StraightFlush => 9,
            HandType::RoyalFlush => 10,
        }
    }

    /// The strength of the category: 1 for a high card up to 10 for a royal
    /// flush.
    #[verifier::when_used_as_spec(spec_ranking)]
    pub fn ranking(&self) -> (r: u8)
        ensures
            r == self.spec_ranking(),
            1 <= r <= 10,
    {
        match self {
            HandType::HighCard => 1,
            HandType::Pair => 2,
            HandType::TwoPair => 3,
            HandType::ThreeOfAKind => 4,
            HandType::Straight => 5,
            HandType::Flush => 6,
            HandType::FullHouse => 7,
            HandType::FourOfAKind => 8,
            HandType::StraightFlush => 9,
            HandType::RoyalFlush => 10,
        }
    }
}

/// The strengths rise strictly along the ladder of categories, from the high
/// card to the royal flush, so two categories of equal strength are the same
/// category.
pub proof fn lemma_ranking_strictly_increasing(a: HandType, b: HandType)
    ensures
        HandType::HighCard.ranking() < HandType::Pair.ranking() < HandType::TwoPair.ranking()
            < HandType::ThreeOfAKind.ranking() < HandType::Straight.ranking()
            < HandType::Flush.ranking() < HandType::FullHouse.ranking()
            < HandType::FourOfAKind.ranking() < HandType::StraightFlush.ranking()
            < HandType::RoyalFlush.ranking(),
        1 <= a.ranking() <= 10,
        a.ranking() == b.ranking() <==> a == b,
{
}

} // verus!
