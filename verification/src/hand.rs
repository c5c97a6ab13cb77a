//! Hands of cards and what can be found in them.

use crate::card::Card;
use crate::hand::hand_types::HandType;
use vstd::prelude::*;
use vstd::slice::slice_to_vec;

pub mod compare;
pub mod five_cards;
pub mod flushes;
pub mod get_best_hand;
pub mod get_kickers;
pub mod groups;
pub mod hand_types;
pub mod laws;
pub mod membership;
pub mod of_a_kind;
pub mod reordering;
pub mod sorting;
pub mod straights;

pub use crate::hand::compare::compare;
pub use crate::hand::flushes::{has_flush, has_royal_flush, has_straight_flush};
pub use crate::hand::get_best_hand::get_best_hand;
pub use crate::hand::of_a_kind::{
    has_four_of_a_kind, has_full_house, has_pair, has_three_of_a_kind, has_two_pair,
};
pub use crate::hand::straights::{has_contiguous_subsets_of_length_5, has_straight};

verus! {

/// A collection of cards to be evaluated. Any number of cards may be held,
/// and a card may occur more than once.
#[derive(Debug)]
pub struct Hand {
    cards: Vec<Card>,
}

impl View for Hand {
    type V = Seq<Card>;

    closed spec fn view(&self) -> Seq<Card> {
        self.cards@
    }
}

impl Hand {
    /// Creates a hand that holds `cards`, in their order.
    pub fn new(cards: Vec<Card>) -> (hand: Hand)
        ensures
            hand@ == cards@,
    {
        Hand { cards }
    }

    /// A copy of the cards of the hand.
    pub fn cards(&self) -> (cards: Vec<Card>)
        ensures
            cards@ == self@,
    {
        slice_to_vec(self.cards.as_slice())
    }

    /// The cards of the hand.
    pub fn as_slice(&self) -> (cards: &[Card])
        ensures
            cards@ == self@,
    {
        self.cards.as_slice()
    }
}

/// What a hand result says: the category, the cards that make up the hand,
/// and the kickers.
pub struct HandResultView {
    pub hand_type: HandType,
    pub cards: Seq<Card>,
    pub kickers: Seq<Card>,
}

/// What the result says when the hand looked for was not found: the
/// category of the high card, and no cards.
pub open spec fn no_hand() -> HandResultView {
    HandResultView { hand_type: HandType::HighCard, cards: Seq::empty(), kickers: Seq::empty() }
}

/// The outcome of looking for a hand: its category, the cards that make it
/// up, and the kickers that break ties against a hand of the same category.
#[derive(Debug)]
pub struct HandResult {
    hand_type: HandType,
    cards: Vec<Card>,
    kickers: Vec<Card>,
}

impl View for HandResult {
    type V = HandResultView;

    closed spec fn view(&self) -> HandResultView {
        HandResultView { hand_type: self.hand_type, cards: self.cards@, kickers: self.kickers@ }
    }
}

impl HandResult {
    /// Creates a result from its three parts.
    pub fn new(hand_type: HandType, cards: Vec<Card>, kickers: Vec<Card>) -> (result: HandResult)
        ensures
            result@ == (HandResultView { hand_type, cards: cards@, kickers: kickers@ }),
    {
        HandResult { hand_type, cards, kickers }
    }

    /// The category of the hand.
    pub fn hand_type(&self) -> (hand_type: HandType)
        ensures
            hand_type == self@.hand_type,
    {
        self.hand_type
    }

    /// A copy of the cards that make up the hand.
    pub fn cards(&self) -> (cards: Vec<Card>)
        ensures
            cards@ == self@.cards,
    {
        slice_to_vec(self.cards.as_slice())
    }

    /// A copy of the kickers.
    pub fn kickers(&self) -> (kickers: Vec<Card>)
        ensures
            kickers@ == self@.kickers,
    {
        slice_to_vec(self.kickers.as_slice())
    }

    /// The cards that make up the hand.
    pub fn primary_cards(&self) -> (cards: &[Card])
        ensures
            cards@ == self@.cards,
    {
        self.cards.as_slice()
    }

    /// The kickers.
    pub fn kicker_cards(&self) -> (kickers: &[Card])
        ensures
            kickers@ == self@.kickers,
    {
        self.kickers.as_slice()
    }

    /// The number of cards that make up the hand, kickers not counted.
    pub fn len(&self) -> (n: usize)
        ensures
            n == self@.cards.len(),
    {
        self.cards.len()
    }

    /// Whether no card makes up the hand, as when the hand looked for was not
    /// found.
    pub fn is_empty(&self) -> (empty: bool)
        ensures
            empty <==> self@.cards.len() == 0,
    {
        self.cards.len() == 0
    }
}

/// The category of the best hand in a collection of cards.
#[derive(Debug, Clone, Copy, PartialEq, Eq, Structural)]
pub enum PokerHand {
    HighCard,
    OnePair,
    TwoPair,
    ThreeOfAKind,
    Straight,
    Flush,
    FullHouse,
    FourOfAKind,
    StraightFlush,
    RoyalFlush,
}

impl PokerHand {
    /// The strength of the category: 1 for a high card up to 10 for a royal
    /// flush.
    pub open spec fn spec_ranking(&self) -> u8 {
        match self {
            PokerHand::HighCard => 1,
            PokerHand::OnePair => 2,
            PokerHand::TwoPair => 3,
            PokerHand::ThreeOfAKind => 4,
            PokerHand::Straight => 5,
            PokerHand::Flush => 6,
            PokerHand::FullHouse => 7,
            PokerHand::FourOfAKind => 8,
            PokerHand::StraightFlush => 9,
            PokerHand::RoyalFlush => 10,
        }
    }

    /// The strength of the category: 1 for a high card up to 10 for a royal
    /// flush.
    #[verifier::when_used_as_spec(spec_ranking)]
    pub fn ranking(&self) -> (r: u8)
        ensures
            r == self.spec_ranking(),
            1 <= r <= 10,
    {
        match self {
            PokerHand::HighCard => 1,
            PokerHand::OnePair => 2,
            PokerHand::TwoPair => 3,
            PokerHand::ThreeOfAKind => 4,
            PokerHand::Straight => 5,
            PokerHand::Flush => 6,
            PokerHand::FullHouse => 7,
            PokerHand::FourOfAKind => 8,
            PokerHand::StraightFlush => 9,
            PokerHand::RoyalFlush => 10,
        }
    }

    /// The poker hand that names a category.
    pub open spec fn of(hand_type: HandType) -> PokerHand {
        match hand_type {
            HandType::HighCard => PokerHand::HighCard,
            HandType::Pair => PokerHand::OnePair,
            HandType::TwoPair => PokerHand::TwoPair,
            HandType::ThreeOfAKind => PokerHand::ThreeOfAKind,
            HandType::Straight => PokerHand::Straight,
            HandType::Flush => PokerHand::Flush,
            HandType::FullHouse => PokerHand::FullHouse,
            HandType::FourOfAKind => PokerHand::FourOfAKind,
            HandType::StraightFlush => PokerHand::StraightFlush,
            HandType::RoyalFlush => PokerHand::RoyalFlush,
        }
    }

    /// The poker hand that names a category; it has the category's strength.
    pub fn from_hand_type(hand_type: HandType) -> (hand: PokerHand)
        ensures
            hand == PokerHand::of(hand_type),
            hand.ranking() == hand_type.ranking(),
    {
        match hand_type {
            HandType::HighCard => PokerHand::HighCard,
            HandType::Pair => PokerHand::OnePair,
            HandType::TwoPair => PokerHand::TwoPair,
            HandType::ThreeOfAKind => PokerHand::ThreeOfAKind,
            HandType::Straight => PokerHand::Straight,
            HandType::Flush => PokerHand::Flush,
            HandType::FullHouse => PokerHand::FullHouse,
            HandType::FourOfAKind => PokerHand::FourOfAKind,
            HandType::StraightFlush => PokerHand::StraightFlush,
            HandType::RoyalFlush => PokerHand::RoyalFlush,
        }
    }
}

} // verus!
