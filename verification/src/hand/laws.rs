//! What holds of the evaluation of every collection of cards.

use crate::card::Card;
use crate::hand::HandResultView;
use crate::hand::flushes::{
    flush_hand, flush_suit, holds_flush, holds_royal_flush, holds_straight_flush, lemma_flush_hands,
};
use crate::hand::get_best_hand::{best_hand, category, hand_of_type, high_card_hand, holds};
use crate::hand::get_kickers::{
    first_of_rank, lemma_highest_rank_with, top_rank_with, without_first,
};
use crate::hand::groups::{count_rank, of_rank, of_suit, rank_is, suit_is};
use crate::hand::hand_types::HandType;
use crate::hand::of_a_kind::{
    four_of_a_kind_hand, full_house_hand, holds_four_of_a_kind, holds_full_house, holds_pair,
    holds_three_of_a_kind, holds_two_pair, lemma_some_rank_has, lemma_two_ranks_have, pair_hand,
    three_of_a_kind_hand, two_pair_hand,
};
use crate::hand::sorting::{
    by_rank_descending, is_descending, lemma_by_rank_descending, lemma_highest,
};
use crate::hand::straights::{holds_rank, holds_straight, is_straight_top};
use vstd::prelude::*;
use vstd::seq_lib::to_multiset_contains;

verus! {

/// Evaluating the same cards again gives the same result: whatever two
/// evaluations of one collection of cards return is one and the same.
pub proof fn lemma_evaluation_is_repeatable(
    cards: Seq<Card>,
    first: HandResultView,
    second: HandResultView,
)
    requires
        first == best_hand(cards),
        second == best_hand(cards),
    ensures
        first == second,
        first.hand_type == second.hand_type,
        first.cards == second.cards,
        first.kickers == second.kickers,
{
}

/// The category of the cards is the strongest category that they hold: they
/// hold it, and they hold no category of greater strength.
pub proof fn lemma_category_is_strongest(cards: Seq<Card>, hand_type: HandType)
    ensures
        holds(cards, category(cards)),
        holds(cards, hand_type) ==> hand_type.ranking() <= category(cards).ranking(),
{
    lemma_flush_hands(cards);
}

/// The full house goes before the flush: cards that hold both a flush and a
/// full house are a full house at least, and are a full house where they
/// hold neither a straight flush nor four of a kind.
pub proof fn lemma_full_house_before_flush(cards: Seq<Card>)
    requires
        holds_flush(cards),
        holds_full_house(cards),
    ensures
        category(cards).ranking() >= HandType::FullHouse.ranking(),
        category(cards) != HandType::Flush,
        !holds_straight_flush(cards) && !holds_four_of_a_kind(cards) ==> category(cards)
            == HandType::FullHouse,
{
    lemma_flush_hands(cards);
}

/// A straight and a flush in one suit go before either alone: cards of which
/// one suit holds a straight are a straight flush or a royal flush.
pub proof fn lemma_straight_flush_before_both(cards: Seq<Card>)
    requires
        holds_straight_flush(cards),
    ensures
        holds_flush(cards),
        category(cards) == HandType::StraightFlush || category(cards) == HandType::RoyalFlush,
        category(cards) == HandType::RoyalFlush <==> holds_royal_flush(cards),
{
    lemma_flush_hands(cards);
}

/// The ace does not join the king to the two: every straight holds a five or
/// a ten, and the only straight that holds both an ace and a rank below ten
/// is the wheel, whose top is the five.
pub proof fn lemma_no_straight_round_the_ace(cards: Seq<Card>, top: int)
    ensures
        holds_straight(cards) ==> holds_rank(cards, 5) || holds_rank(cards, 10),
        is_straight_top(cards, top) ==> 5 <= top <= 14 && holds_rank(cards, top),
        is_straight_top(cards, top) && top != 5 ==> holds_rank(cards, top - 4) && top - 4 >= 2,
        is_straight_top(cards, 5) ==> holds_rank(cards, 14) && holds_rank(cards, 2),
{
    if holds_straight(cards) {
        let found = choose|found: int| is_straight_top(cards, found);
        if found <= 9 {
            assert(holds_rank(cards, 5));
        } else {
            assert(holds_rank(cards, 10));
        }
    }
}

/// Whatever hand is looked for, its kickers come highest first.
pub proof fn lemma_kickers_descend(cards: Seq<Card>, hand_type: HandType)
    ensures
        is_descending(hand_of_type(cards, hand_type).kickers),
        is_descending(best_hand(cards).kickers),
{
    let four = top_rank_with(cards, 4, 0);
    let three = top_rank_with(cards, 3, 0);
    let high = top_rank_with(cards, 2, 0);
    let low = top_rank_with(cards, 2, high);
    lemma_highest(without_first(cards, four, 4), 1);
    lemma_highest(without_first(cards, three, 3), 2);
    lemma_highest(without_first(cards, high, 2), 3);
    lemma_highest(
        without_first(
            without_first(cards, high, 2),
            low,
            2,
        ),
        1,
    );
}

/// The first `n` cards of a rank that `n` cards or more have are `n` cards
/// of that rank.
pub proof fn lemma_first_of_rank(cards: Seq<Card>, rank: int, n: nat)
    ensures
        forall|i: int|
            0 <= i < first_of_rank(cards, rank, n).len() ==> (#[trigger] first_of_rank(
                cards,
                rank,
                n,
            )[i]).rank() == rank,
        count_rank(cards, rank) >= n ==> first_of_rank(cards, rank, n).len()
            == n,
{
    let group = of_rank(cards, rank);
    assert forall|i: int| 0 <= i < first_of_rank(cards, rank, n).len() implies (
    #[trigger] first_of_rank(cards, rank, n)[i]).rank() == rank by {
        cards.lemma_filter_pred(rank_is(rank), i);
        assert(first_of_rank(cards, rank, n)[i] == group[i]);
    }
}

/// A pair that is found is two cards of one rank; three of a kind, three;
/// four of a kind, four. The rank is the highest that so many cards have.
pub proof fn lemma_hands_of_one_rank(cards: Seq<Card>)
    ensures
        holds_pair(cards) ==> {
            let hand = pair_hand(cards);
            &&& hand.cards.len() == 2
            &&& hand.cards[0].rank() == hand.cards[1].rank()
            &&& forall|r: int|
                2 <= r <= 14 && #[trigger] count_rank(cards, r) >= 2 ==> r
                    <= hand.cards[0].rank()
        },
        holds_three_of_a_kind(cards) ==> {
            let hand = three_of_a_kind_hand(cards);
            &&& hand.cards.len() == 3
            &&& hand.cards[0].rank() == hand.cards[1].rank() == hand.cards[2].rank()
            &&& forall|r: int|
                2 <= r <= 14 && #[trigger] count_rank(cards, r) >= 3 ==> r
                    <= hand.cards[0].rank()
        },
        holds_four_of_a_kind(cards) ==> {
            let hand = four_of_a_kind_hand(cards);
            &&& hand.cards.len() == 4
            &&& hand.cards[0].rank() == hand.cards[1].rank() == hand.cards[2].rank()
                == hand.cards[3].rank()
            &&& forall|r: int|
                2 <= r <= 14 && #[trigger] count_rank(cards, r) >= 4 ==> r
                    <= hand.cards[0].rank()
        },
{
    lemma_some_rank_has(cards, 2);
    lemma_some_rank_has(cards, 3);
    lemma_some_rank_has(cards, 4);
    lemma_highest_rank_with(cards, 2, 0, 14);
    lemma_highest_rank_with(cards, 3, 0, 14);
    lemma_highest_rank_with(cards, 4, 0, 14);
    lemma_first_of_rank(cards, top_rank_with(cards, 2, 0), 2);
    lemma_first_of_rank(cards, top_rank_with(cards, 3, 0), 3);
    lemma_first_of_rank(cards, top_rank_with(cards, 4, 0), 4);
}

/// A full house that is found is three cards of one rank and then two cards
/// of another. Two pair that are found are two cards of one rank and then
/// two cards of a lower rank.
pub proof fn lemma_hands_of_two_ranks(cards: Seq<Card>)
    ensures
        holds_full_house(cards) ==> {
            let hand = full_house_hand(cards);
            &&& hand.cards.len() == 5
            &&& hand.cards[0].rank() == hand.cards[1].rank() == hand.cards[2].rank()
            &&& hand.cards[3].rank() == hand.cards[4].rank()
            &&& hand.cards[2].rank() != hand.cards[3].rank()
        },
        holds_two_pair(cards) ==> {
            let hand = two_pair_hand(cards);
            &&& hand.cards.len() == 4
            &&& hand.cards[0].rank() == hand.cards[1].rank()
            &&& hand.cards[2].rank() == hand.cards[3].rank()
            &&& hand.cards[1].rank() > hand.cards[2].rank()
        },
{
    lemma_two_ranks_have(cards, 3, 2);
    lemma_two_ranks_have(cards, 2, 2);
    let triple = top_rank_with(cards, 3, 0);
    let pair = top_rank_with(cards, 2, triple);
    let high = top_rank_with(cards, 2, 0);
    let low = top_rank_with(cards, 2, high);
    lemma_highest_rank_with(cards, 3, 0, 14);
    lemma_highest_rank_with(cards, 2, triple, 14);
    lemma_highest_rank_with(cards, 2, 0, 14);
    lemma_highest_rank_with(cards, 2, high, 14);
    lemma_first_of_rank(cards, triple, 3);
    lemma_first_of_rank(cards, pair, 2);
    lemma_first_of_rank(cards, high, 2);
    lemma_first_of_rank(cards, low, 2);
    if holds_full_house(cards) {
        let left = first_of_rank(cards, triple, 3);
        let right = first_of_rank(cards, pair, 2);
        let hand = full_house_hand(cards);
        assert(hand.cards[0] == left[0] && hand.cards[1] == left[1] && hand.cards[2] == left[2]);
        assert(hand.cards[3] == right[0] && hand.cards[4] == right[1]);
    }
    if holds_two_pair(cards) {
        let left = first_of_rank(cards, high, 2);
        let right = first_of_rank(cards, low, 2);
        let hand = two_pair_hand(cards);
        assert(hand.cards[0] == left[0] && hand.cards[1] == left[1]);
        assert(hand.cards[2] == right[0] && hand.cards[3] == right[1]);
        assert(count_rank(cards, low) >= 2);
    }
}

/// A flush that is found is five cards of one suit, highest first. The high
/// card hand of five cards or more is five cards, highest first.
pub proof fn lemma_flush_and_high_card(cards: Seq<Card>)
    ensures
        holds_flush(cards) ==> {
            let hand = flush_hand(cards);
            &&& hand.cards.len() == 5
            &&& is_descending(hand.cards)
            &&& forall|i: int| 0 <= i < 5 ==> (#[trigger] hand.cards[i]).suit == hand.cards[0].suit
        },
        is_descending(high_card_hand(cards).cards),
        cards.len() >= 5 ==> high_card_hand(cards).cards.len() == 5,
{
    lemma_flush_hands(cards);
    lemma_highest(cards, 5);
    if let Some(suit) = flush_suit(cards) {
        let suited = of_suit(cards, suit);
        lemma_highest(suited, 5);
        lemma_by_rank_descending(suited);
        let hand = flush_hand(cards);
        assert forall|i: int| 0 <= i < 5 implies (#[trigger] hand.cards[i]).suit == suit by {
            let sorted = by_rank_descending(suited);
            assert(hand.cards[i] == sorted[i]);
            assert(sorted.contains(sorted[i]));
            to_multiset_contains(sorted, sorted[i]);
            to_multiset_contains(suited, sorted[i]);
            let k = choose|k: int| 0 <= k < suited.len() && suited[k] == sorted[i];
            cards.lemma_filter_pred(suit_is(suit), k);
        }
    }
}

} // verus!
