//! The cards of a result are cards of the hand.
//!
//! Whatever hand is found, the cards that make it up and its kickers are
//! taken from the cards that were given, none of them more often than it was
//! given. So no card is both in the hand and a kicker unless it was given
//! twice.

use crate::card::Card;
use crate::hand::flushes::{best_straight_flush, flush_suit, royal_flush_suit};
use crate::hand::get_best_hand::{best_hand, hand_of_type};
use crate::hand::get_kickers::{
    first_of_rank, lemma_first_and_rest, lemma_without_first_other_rank, top_rank_with,
    without_first,
};
use crate::hand::groups::{of_rank, of_suit, rank_is, suit_is};
use crate::hand::hand_types::HandType;
use crate::hand::sorting::{by_rank_descending, highest, lemma_by_rank_descending};
use crate::hand::straights::{
    best_straight_top, is_straight_top, lemma_best_straight_top, straight_cards, straight_rank,
    straight_values,
};
use crate::hand::HandResultView;
use vstd::multiset::Multiset;
use vstd::prelude::*;
use vstd::seq_lib::{lemma_multiset_commutative, to_multiset_build, to_multiset_contains};

verus! {

/// The cards of the result, those that make up the hand and the kickers, as
/// a collection in which only the number of times a card occurs counts.
pub open spec fn cards_used(result: HandResultView) -> Multiset<Card> {
    result.cards.to_multiset().add(result.kickers.to_multiset())
}

/// The first cards of a list are part of the list.
proof fn lemma_take_is_part(cards: Seq<Card>, n: int)
    requires
        0 <= n <= cards.len(),
    ensures
        cards.take(n).to_multiset().subset_of(cards.to_multiset()),
{
    broadcast use vstd::multiset::group_multiset_axioms;

    assert(cards =~= cards.take(n) + cards.skip(n));
    lemma_multiset_commutative(cards.take(n), cards.skip(n));
}

/// The highest cards of a list are part of the list.
proof fn lemma_highest_is_part(cards: Seq<Card>, n: nat)
    ensures
        highest(cards, n).to_multiset().subset_of(cards.to_multiset()),
{
    broadcast use vstd::multiset::group_multiset_axioms;

    lemma_by_rank_descending(cards);
    let sorted = by_rank_descending(cards);
    if n <= sorted.len() {
        lemma_take_is_part(sorted, n as int);
    }
}

/// The cards that pass a test are part of the cards.
proof fn lemma_filter_is_part(cards: Seq<Card>, keep: spec_fn(Card) -> bool)
    ensures
        cards.filter(keep).to_multiset().subset_of(cards.to_multiset()),
    decreases cards.len(),
{
    broadcast use vstd::multiset::group_multiset_axioms;

    if cards.len() == 0 {
        crate::hand::groups::lemma_filter_none(cards, keep);
        assert(cards =~= Seq::<Card>::empty());
    } else {
        let init = cards.drop_last();
        let last = cards.last();
        assert(cards =~= init.push(last));
        lemma_filter_is_part(init, keep);
        init.lemma_filter_push(last, keep);
        to_multiset_build(init, last);
        to_multiset_build(init.filter(keep), last);
    }
}

/// The first cards of one rank, with kickers from the cards without them,
/// are part of the cards.
proof fn lemma_rank_hand_is_part(cards: Seq<Card>, rank: int, n: nat, kickers: nat)
    ensures
        first_of_rank(cards, rank, n).to_multiset().add(
            highest(without_first(cards, rank, n), kickers).to_multiset(),
        ).subset_of(cards.to_multiset()),
{
    broadcast use vstd::multiset::group_multiset_axioms;

    lemma_first_and_rest(cards, rank, n);
    lemma_highest_is_part(without_first(cards, rank, n), kickers);
}

/// The first cards of two ranks, with kickers from the cards without them,
/// are part of the cards.
proof fn lemma_two_rank_hand_is_part(
    cards: Seq<Card>,
    first: int,
    n: nat,
    second: int,
    m: nat,
    kickers: nat,
)
    requires
        first != second,
    ensures
        (first_of_rank(cards, first, n) + first_of_rank(cards, second, m)).to_multiset().add(
            highest(without_first(without_first(cards, first, n), second, m), kickers).to_multiset(),
        ).subset_of(cards.to_multiset()),
        (first_of_rank(cards, first, n) + first_of_rank(cards, second, m)).to_multiset().subset_of(
            cards.to_multiset(),
        ),
{
    broadcast use vstd::multiset::group_multiset_axioms;

    let rest = without_first(cards, first, n);
    lemma_first_and_rest(cards, first, n);
    lemma_without_first_other_rank(cards, first, n, second);
    assert(first_of_rank(rest, second, m) == first_of_rank(cards, second, m));
    lemma_first_and_rest(rest, second, m);
    lemma_highest_is_part(without_first(rest, second, m), kickers);
    lemma_multiset_commutative(first_of_rank(cards, first, n), first_of_rank(cards, second, m));
}

/// The cards of a straight have the ranks of the straight, from the top
/// down, and are part of the cards.
pub proof fn lemma_straight_cards(cards: Seq<Card>, top: int)
    requires
        is_straight_top(cards, top),
    ensures
        straight_cards(cards, top).len() == 5,
        forall|k: int|
            0 <= k < 5 ==> (#[trigger] straight_cards(cards, top)[k]).rank() == straight_rank(
                top,
                k,
            ),
        forall|k: int| 0 <= k < 5 ==> cards.contains(#[trigger] straight_cards(cards, top)[k]),
        straight_cards(cards, top).to_multiset().subset_of(cards.to_multiset()),
{
    broadcast use vstd::multiset::group_multiset_axioms;

    let run = straight_cards(cards, top);
    assert forall|k: int| 0 <= k < 5 implies (#[trigger] run[k]).rank() == straight_rank(top, k)
        && cards.contains(run[k]) by {
        let rank = straight_rank(top, k);
        crate::card::lemma_value_of_rank(rank);
        assert(straight_values(top)[k].rank() == rank);
        let group = of_rank(cards, rank);
        assert(run[k] == group.first());
        cards.lemma_filter_pred(rank_is(rank), 0);
        assert(group.contains(group[0]));
        cards.lemma_filter_contains_rev(rank_is(rank), group[0]);
    }
    assert(run.no_duplicates()) by {
        assert forall|i: int, j: int| 0 <= i < run.len() && 0 <= j < run.len() && i != j implies run[i]
            != run[j] by {
            assert(run[i].rank() == straight_rank(top, i));
            assert(run[j].rank() == straight_rank(top, j));
        }
    }
    run.lemma_multiset_has_no_duplicates();
    assert forall|c: Card| run.to_multiset().count(c) <= cards.to_multiset().count(c) by {
        to_multiset_contains(run, c);
        if run.to_multiset().count(c) > 0 {
            let k = choose|k: int| 0 <= k < run.len() && run[k] == c;
            assert(cards.contains(run[k]));
            to_multiset_contains(cards, c);
        }
    }
}

/// Whatever hand of whatever category is looked for in the cards, the cards
/// of the result are part of the cards: each occurs in the result, kickers
/// counted, no more often than it was given.
pub proof fn lemma_hand_is_part_of_cards(cards: Seq<Card>, hand_type: HandType)
    ensures
        cards_used(hand_of_type(cards, hand_type)).subset_of(cards.to_multiset()),
{
    broadcast use vstd::multiset::group_multiset_axioms;

    let empty = Seq::<Card>::empty();
    assert(empty.to_multiset() =~= Multiset::<Card>::empty()) by {
        vstd::seq_lib::to_multiset_len(empty);
        assert(empty.to_multiset().len() == 0);
    }
    match hand_type {
        HandType::RoyalFlush => {
            if let Some(suit) = royal_flush_suit(cards) {
                let suited = of_suit(cards, suit);
                lemma_best_straight_top(suited);
                lemma_straight_cards(suited, 14);
                lemma_filter_is_part(cards, suit_is(suit));
            }
        },
        HandType::StraightFlush => {
            let (suit, top) = best_straight_flush(cards);
            if top != 0 {
                let suited = of_suit(cards, suit);
                lemma_best_straight_top(suited);
                lemma_straight_cards(suited, top);
                lemma_filter_is_part(cards, suit_is(suit));
            }
        },
        HandType::FourOfAKind => {
            lemma_rank_hand_is_part(cards, top_rank_with(cards, 4, 0), 4, 1);
        },
        HandType::FullHouse => {
            let triple = top_rank_with(cards, 3, 0);
            let pair = top_rank_with(cards, 2, triple);
            if triple != 0 && pair != 0 {
                crate::hand::get_kickers::lemma_highest_rank_with(cards, 2, triple, 14);
                lemma_two_rank_hand_is_part(cards, triple, 3, pair, 2, 0);
            }
        },
        HandType::Flush => {
            if let Some(suit) = flush_suit(cards) {
                lemma_highest_is_part(of_suit(cards, suit), 5);
                lemma_filter_is_part(cards, suit_is(suit));
            }
        },
        HandType::Straight => {
            let top = best_straight_top(cards);
            if top != 0 {
                lemma_best_straight_top(cards);
                lemma_straight_cards(cards, top);
            }
        },
        HandType::ThreeOfAKind => {
            lemma_rank_hand_is_part(cards, top_rank_with(cards, 3, 0), 3, 2);
        },
        HandType::TwoPair => {
            let high = top_rank_with(cards, 2, 0);
            let low = top_rank_with(cards, 2, high);
            if high != 0 && low != 0 {
                crate::hand::get_kickers::lemma_highest_rank_with(cards, 2, high, 14);
                lemma_two_rank_hand_is_part(cards, high, 2, low, 2, 1);
            }
        },
        HandType::Pair => {
            lemma_rank_hand_is_part(cards, top_rank_with(cards, 2, 0), 2, 3);
        },
        HandType::HighCard => {
            lemma_highest_is_part(cards, 5);
        },
    }
}

/// The cards of the best hand, kickers counted, are part of the cards that
/// were evaluated.
pub proof fn lemma_best_hand_is_part_of_cards(cards: Seq<Card>)
    ensures
        cards_used(best_hand(cards)).subset_of(cards.to_multiset()),
{
    lemma_hand_is_part_of_cards(cards, crate::hand::get_best_hand::category(cards));
}

} // verus!
