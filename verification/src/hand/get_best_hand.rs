//! The best hand in a collection of cards.
//!
//! The categories are tried from the strongest to the weakest, and the first
//! that the cards hold is the category of the best hand: royal flush,
//! straight flush, four of a kind, full house, flush, straight, three of a
//! kind, two pair, pair. The high card is always there.

use crate::card::Card;
use crate::hand::flushes::{
    flush_hand, flush_suit, has_flush, has_royal_flush, has_straight_flush, holds_flush,
    holds_royal_flush, holds_straight_flush, lemma_flush_hands, royal_flush_hand,
    straight_flush_hand,
};
use crate::hand::get_kickers::{
    first_of_rank, lemma_first_and_rest, lemma_highest_rank_with, lemma_without_first_other_rank,
    top_rank_with, without_first,
};
use crate::hand::groups::{count_rank, count_values, of_suit};
use crate::hand::hand_types::HandType;
use crate::hand::of_a_kind::{
    four_of_a_kind_hand, full_house_hand, has_four_of_a_kind, has_four_of_a_kind_with_counts,
    has_full_house, has_full_house_with_counts, has_pair, has_pair_with_counts, has_three_of_a_kind,
    has_three_of_a_kind_with_counts, has_two_pair, has_two_pair_with_counts, holds_four_of_a_kind,
    holds_full_house, holds_pair, holds_three_of_a_kind, holds_two_pair, lemma_slots_are_ranks,
    lemma_some_rank_has, lemma_two_ranks_have, pair_hand, three_of_a_kind_hand, two_pair_hand,
};
use crate::hand::sorting::{highest, highest_cards, lemma_highest};
use crate::hand::straights::{has_straight, holds_straight, lemma_best_straight_top, straight_hand};
use crate::hand::{Hand, HandResult, HandResultView, PokerHand};
use vstd::prelude::*;

verus! {

/// The category of the best hand in the cards: the strongest category that
/// the cards hold.
pub open spec fn category(cards: Seq<Card>) -> HandType {
    if holds_royal_flush(cards) {
        HandType::RoyalFlush
    } else if holds_straight_flush(cards) {
        HandType::StraightFlush
    } else if holds_four_of_a_kind(cards) {
        HandType::FourOfAKind
    } else if holds_full_house(cards) {
        HandType::FullHouse
    } else if holds_flush(cards) {
        HandType::Flush
    } else if holds_straight(cards) {
        HandType::Straight
    } else if holds_three_of_a_kind(cards) {
        HandType::ThreeOfAKind
    } else if holds_two_pair(cards) {
        HandType::TwoPair
    } else if holds_pair(cards) {
        HandType::Pair
    } else {
        HandType::HighCard
    }
}

/// The high card hand: the five highest cards, highest first, and no
/// kickers.
pub open spec fn high_card_hand(cards: Seq<Card>) -> HandResultView {
    HandResultView { hand_type: HandType::HighCard, cards: highest(cards, 5), kickers: Seq::empty() }
}

/// The best hand of a given category in the cards; no hand where the cards
/// do not hold that category.
pub open spec fn hand_of_type(cards: Seq<Card>, hand_type: HandType) -> HandResultView {
    match hand_type {
        HandType::RoyalFlush => royal_flush_hand(cards),
        HandType::StraightFlush => straight_flush_hand(cards),
        HandType::FourOfAKind => four_of_a_kind_hand(cards),
        HandType::FullHouse => full_house_hand(cards),
        HandType::Flush => flush_hand(cards),
        HandType::Straight => straight_hand(cards),
        HandType::ThreeOfAKind => three_of_a_kind_hand(cards),
        HandType::TwoPair => two_pair_hand(cards),
        HandType::Pair => pair_hand(cards),
        HandType::HighCard => high_card_hand(cards),
    }
}

/// The best hand in the cards: the best hand of the strongest category that
/// the cards hold.
pub open spec fn best_hand(cards: Seq<Card>) -> HandResultView {
    hand_of_type(cards, category(cards))
}

/// How many cards make up a hand of a category; the kickers fill the hand up
/// to five.
pub open spec fn primary_count(hand_type: HandType) -> nat {
    match hand_type {
        HandType::FourOfAKind => 4,
        HandType::ThreeOfAKind => 3,
        HandType::TwoPair => 4,
        HandType::Pair => 2,
        _ => 5,
    }
}

/// The cards hold a hand of the category `hand_type`. A high card is held by
/// any cards.
pub open spec fn holds(cards: Seq<Card>, hand_type: HandType) -> bool {
    match hand_type {
        HandType::RoyalFlush => holds_royal_flush(cards),
        HandType::StraightFlush => holds_straight_flush(cards),
        HandType::FourOfAKind => holds_four_of_a_kind(cards),
        HandType::FullHouse => holds_full_house(cards),
        HandType::Flush => holds_flush(cards),
        HandType::Straight => holds_straight(cards),
        HandType::ThreeOfAKind => holds_three_of_a_kind(cards),
        HandType::TwoPair => holds_two_pair(cards),
        HandType::Pair => holds_pair(cards),
        HandType::HighCard => true,
    }
}

/// A hand of a category is found exactly when the cards hold the category,
/// and the result then names the category; only the straight flush that the
/// ace tops is named a royal flush. From five cards on, a hand that is found
/// is made up of as many cards as its category asks for, and the kickers
/// fill it up to five cards.
pub proof fn lemma_hand_of_type(cards: Seq<Card>, hand_type: HandType)
    ensures
        holds(cards, hand_type) <==> hand_of_type(cards, hand_type).hand_type == hand_type || (
        hand_type == HandType::StraightFlush && hand_of_type(cards, hand_type).hand_type
            == HandType::RoyalFlush),
        hand_type == HandType::StraightFlush ==> (holds_royal_flush(cards) <==> hand_of_type(
            cards,
            hand_type,
        ).hand_type == HandType::RoyalFlush),
        !holds(cards, hand_type) ==> hand_of_type(cards, hand_type) == crate::hand::no_hand(),
        cards.len() >= 5 && holds(cards, hand_type) ==> {
            let hand = hand_of_type(cards, hand_type);
            &&& hand.cards.len() == primary_count(hand_type)
            &&& hand.cards.len() + hand.kickers.len() == 5
        },
{
    lemma_flush_hands(cards);
    lemma_best_straight_top(cards);
    lemma_some_rank_has(cards, 4);
    lemma_some_rank_has(cards, 3);
    lemma_some_rank_has(cards, 2);
    lemma_two_ranks_have(cards, 3, 2);
    lemma_two_ranks_have(cards, 2, 2);
    lemma_highest_rank_with(cards, 4, 0, 14);
    lemma_highest_rank_with(cards, 3, 0, 14);
    lemma_highest_rank_with(cards, 2, 0, 14);
    if cards.len() >= 5 && holds(cards, hand_type) {
        match hand_type {
            HandType::FourOfAKind => {
                lemma_rank_hand_sizes(cards, top_rank_with(cards, 4, 0), 4, 1);
            },
            HandType::FullHouse => {
                let triple = top_rank_with(cards, 3, 0);
                let pair = top_rank_with(cards, 2, triple);
                lemma_highest_rank_with(cards, 2, triple, 14);
                lemma_first_and_rest(cards, triple, 3);
                lemma_first_and_rest(cards, pair, 2);
            },
            HandType::Flush => {
                let suit = flush_suit(cards).unwrap();
                lemma_highest(of_suit(cards, suit), 5);
            },
            HandType::ThreeOfAKind => {
                lemma_rank_hand_sizes(cards, top_rank_with(cards, 3, 0), 3, 2);
            },
            HandType::TwoPair => {
                let high = top_rank_with(cards, 2, 0);
                let low = top_rank_with(cards, 2, high);
                lemma_highest_rank_with(cards, 2, high, 14);
                let rest = without_first(cards, high, 2);
                lemma_first_and_rest(cards, high, 2);
                lemma_first_and_rest(cards, low, 2);
                lemma_without_first_other_rank(cards, high, 2, low);
                lemma_first_and_rest(rest, low, 2);
                lemma_highest(without_first(rest, low, 2), 1);
            },
            HandType::Pair => {
                lemma_rank_hand_sizes(cards, top_rank_with(cards, 2, 0), 2, 3);
            },
            HandType::HighCard => {
                lemma_highest(cards, 5);
            },
            _ => {},
        }
    }
}

/// The best hand has the category of the cards. From five cards on it is
/// made up of as many cards as its category asks for, and the kickers fill
/// it up to five cards.
pub proof fn lemma_best_hand(cards: Seq<Card>)
    ensures
        holds(cards, category(cards)),
        best_hand(cards).hand_type == category(cards),
        cards.len() >= 5 ==> best_hand(cards).cards.len() == primary_count(category(cards)),
        cards.len() >= 5 ==> best_hand(cards).cards.len() + best_hand(cards).kickers.len() == 5,
{
    lemma_hand_of_type(cards, category(cards));
}

/// Where `n` cards or more have the rank, and there are five cards or more,
/// the first `n` of the rank and `5 - n` kickers are five cards.
proof fn lemma_rank_hand_sizes(cards: Seq<Card>, rank: int, n: nat, kickers: nat)
    requires
        cards.len() >= 5,
        n + kickers == 5,
        count_rank(cards, rank) >= n,
    ensures
        first_of_rank(cards, rank, n).len() == n,
        highest(without_first(cards, rank, n), kickers).len() == kickers,
{
    lemma_first_and_rest(cards, rank, n);
    lemma_highest(without_first(cards, rank, n), kickers);
}

/// The category of the best hand in the cards.
pub fn get_best_hand(cards: &[Card]) -> (best: PokerHand)
    ensures
        best == PokerHand::of(category(cards@)),
        best.ranking() == category(cards@).ranking(),
{
    if has_royal_flush(cards) {
        return PokerHand::RoyalFlush;
    }
    if has_straight_flush(cards) {
        return PokerHand::StraightFlush;
    }
    if has_four_of_a_kind(cards) {
        return PokerHand::FourOfAKind;
    }
    if has_full_house(cards) {
        return PokerHand::FullHouse;
    }
    if has_flush(cards) {
        return PokerHand::Flush;
    }
    if has_straight(cards) {
        return PokerHand::Straight;
    }
    if has_three_of_a_kind(cards) {
        return PokerHand::ThreeOfAKind;
    }
    if has_two_pair(cards) {
        return PokerHand::TwoPair;
    }
    if has_pair(cards) {
        return PokerHand::OnePair;
    }
    PokerHand::HighCard
}

impl Hand {
    /// The best hand that the cards of the hand hold: its category, the cards
    /// that make it up, and the kickers. The categories are tried from the
    /// royal flush down, and the first that the hand holds decides. The hand
    /// must hold five cards or more; the result then counts five cards,
    /// kickers included.
    pub fn get_best_hand(&self) -> (result: HandResult)
        requires
            self@.len() >= 5,
        ensures
            result@ == best_hand(self@),
            result@.hand_type == category(self@),
            result@.cards.len() == primary_count(category(self@)),
            result@.cards.len() + result@.kickers.len() == 5,
    {
        proof {
            lemma_best_hand(self@);
            lemma_flush_hands(self@);
        }
        if self.has_straight_flush() {
            if self.has_royal_flush() {
                return self.get_royal_flush();
            }
            return self.get_straight_flush();
        }
        let cards = self.as_slice();
        let value_counts = count_values(cards);
        proof {
            lemma_slots_are_ranks(value_counts@, cards@, 4, 4);
            lemma_slots_are_ranks(value_counts@, cards@, 3, 2);
            lemma_slots_are_ranks(value_counts@, cards@, 2, 2);
        }
        if has_four_of_a_kind_with_counts(value_counts.as_slice()) {
            return self.get_four_of_a_kind();
        }
        if has_full_house_with_counts(value_counts.as_slice()) {
            return self.get_full_house();
        }
        if self.has_flush() {
            return self.get_flush();
        }
        if self.has_straight() {
            return self.get_straight();
        }
        if has_three_of_a_kind_with_counts(value_counts.as_slice()) {
            return self.get_three_of_a_kind();
        }
        if has_two_pair_with_counts(value_counts.as_slice()) {
            return self.get_two_pair();
        }
        if has_pair_with_counts(value_counts.as_slice()) {
            return self.get_pair();
        }
        let high_cards = highest_cards(cards, 5);
        HandResult::new(HandType::HighCard, high_cards, Vec::new())
    }
}

} // verus!
