//! The order in which the cards are given does not change what they hold.
//!
//! Every category is told from how many cards have a rank, how many have a
//! suit, and which ranks the cards of a suit have. None of that depends on
//! the order of the cards, so the same cards in another order hold the same
//! categories and have the same category.

use crate::card::{Card, Suit};
use crate::hand::flushes::{
    holds_flush, holds_royal_flush, holds_straight_flush, suit_straight_top,
};
use crate::hand::get_best_hand::{category, holds};
use crate::hand::groups::{count_rank, count_suit, of_suit, rank_is, suit_is};
use crate::hand::hand_types::HandType;
use crate::hand::of_a_kind::{some_rank_has, two_ranks_have};
use crate::hand::straights::{highest_straight_top, holds_straight, is_straight_top};
use vstd::prelude::*;
use vstd::seq_lib::{to_multiset_build, to_multiset_len};

verus! {

/// `other` holds the cards of `cards`, each as often, in whatever order.
pub open spec fn reorders(other: Seq<Card>, cards: Seq<Card>) -> bool {
    other.to_multiset() == cards.to_multiset()
}

/// The cards that pass a test are, order apart, those of the collection
/// that pass it.
proof fn lemma_filter_apart_from_order(cards: Seq<Card>, keep: spec_fn(Card) -> bool)
    ensures
        cards.filter(keep).to_multiset() == cards.to_multiset().filter(keep),
    decreases cards.len(),
{
    broadcast use vstd::multiset::group_multiset_axioms;

    if cards.len() == 0 {
        crate::hand::groups::lemma_filter_none(cards, keep);
        to_multiset_len(cards);
        to_multiset_len(cards.filter(keep));
        assert(cards.filter(keep).to_multiset() =~= cards.to_multiset().filter(keep));
    } else {
        let init = cards.drop_last();
        let last = cards.last();
        assert(cards =~= init.push(last));
        lemma_filter_apart_from_order(init, keep);
        init.lemma_filter_push(last, keep);
        to_multiset_build(init, last);
        to_multiset_build(init.filter(keep), last);
        assert(cards.filter(keep).to_multiset() =~= cards.to_multiset().filter(keep));
    }
}

/// In another order the cards of a suit are, order apart, the same, and as
/// many cards have each rank and each suit.
pub proof fn lemma_counts_of_reordering(other: Seq<Card>, cards: Seq<Card>)
    requires
        reorders(other, cards),
    ensures
        other.len() == cards.len(),
        forall|r: int| #[trigger] count_rank(other, r) == count_rank(cards, r),
        forall|s: Suit| #[trigger] count_suit(other, s) == count_suit(cards, s),
        forall|s: Suit| reorders(#[trigger] of_suit(other, s), of_suit(cards, s)),
{
    to_multiset_len(other);
    to_multiset_len(cards);
    assert forall|r: int| #[trigger] count_rank(other, r) == count_rank(cards, r) by {
        lemma_filter_apart_from_order(other, rank_is(r));
        lemma_filter_apart_from_order(cards, rank_is(r));
        to_multiset_len(other.filter(rank_is(r)));
        to_multiset_len(cards.filter(rank_is(r)));
    }
    assert forall|s: Suit| reorders(#[trigger] of_suit(other, s), of_suit(cards, s)) by {
        lemma_filter_apart_from_order(other, suit_is(s));
        lemma_filter_apart_from_order(cards, suit_is(s));
    }
    assert forall|s: Suit| #[trigger] count_suit(other, s) == count_suit(cards, s) by {
        assert(reorders(of_suit(other, s), of_suit(cards, s)));
        to_multiset_len(of_suit(other, s));
        to_multiset_len(of_suit(cards, s));
    }
}

/// Cards of which as many have each rank hold the same straights.
proof fn lemma_straights_by_counts(other: Seq<Card>, cards: Seq<Card>, from: int)
    requires
        forall|r: int| #[trigger] count_rank(other, r) == count_rank(cards, r),
    ensures
        forall|top: int| #[trigger] is_straight_top(other, top) == is_straight_top(cards, top),
        highest_straight_top(other, from) == highest_straight_top(cards, from),
        holds_straight(other) == holds_straight(cards),
    decreases from,
{
    assert forall|top: int| #[trigger] is_straight_top(other, top) == is_straight_top(
        cards,
        top,
    ) by {
        assert(count_rank(other, top) == count_rank(cards, top));
        assert(count_rank(other, top - 1) == count_rank(cards, top - 1));
        assert(count_rank(other, top - 2) == count_rank(cards, top - 2));
        assert(count_rank(other, top - 3) == count_rank(cards, top - 3));
        assert(count_rank(other, top - 4) == count_rank(cards, top - 4));
        assert(count_rank(other, 14) == count_rank(cards, 14));
    }
    if from >= 5 {
        lemma_straights_by_counts(other, cards, from - 1);
    }
    if holds_straight(other) {
        let top = choose|top: int| is_straight_top(other, top);
        assert(is_straight_top(cards, top));
    }
    if holds_straight(cards) {
        let top = choose|top: int| is_straight_top(cards, top);
        assert(is_straight_top(other, top));
    }
}

/// The same cards in another order hold the same categories, and so have the
/// same category.
pub proof fn lemma_category_of_reordering(other: Seq<Card>, cards: Seq<Card>)
    requires
        reorders(other, cards),
    ensures
        forall|hand_type: HandType| #[trigger] holds(other, hand_type) == holds(cards, hand_type),
        category(other) == category(cards),
{
    lemma_counts_of_reordering(other, cards);
    lemma_straights_by_counts(other, cards, 14);
    assert forall|n: nat| #[trigger] some_rank_has(other, n) == some_rank_has(cards, n) by {
        if some_rank_has(other, n) {
            let r = choose|r: int| 2 <= r <= 14 && #[trigger] count_rank(other, r) >= n;
            assert(count_rank(cards, r) >= n);
        }
        if some_rank_has(cards, n) {
            let r = choose|r: int| 2 <= r <= 14 && #[trigger] count_rank(cards, r) >= n;
            assert(count_rank(other, r) >= n);
        }
    }
    assert forall|n: nat, m: nat| #[trigger]
        two_ranks_have(other, n, m) == two_ranks_have(cards, n, m) by {
        if two_ranks_have(other, n, m) {
            let (a, b) = choose|a: int, b: int|
                2 <= a <= 14 && 2 <= b <= 14 && a != b && #[trigger] count_rank(other, a) >= n
                    && #[trigger] count_rank(other, b) >= m;
            assert(count_rank(cards, a) >= n && count_rank(cards, b) >= m);
        }
        if two_ranks_have(cards, n, m) {
            let (a, b) = choose|a: int, b: int|
                2 <= a <= 14 && 2 <= b <= 14 && a != b && #[trigger] count_rank(cards, a) >= n
                    && #[trigger] count_rank(cards, b) >= m;
            assert(count_rank(other, a) >= n && count_rank(other, b) >= m);
        }
    }
    assert(holds_flush(other) == holds_flush(cards)) by {
        if holds_flush(other) {
            let s = choose|s: Suit| #[trigger] count_suit(other, s) >= 5;
            assert(count_suit(cards, s) >= 5);
        }
        if holds_flush(cards) {
            let s = choose|s: Suit| #[trigger] count_suit(cards, s) >= 5;
            assert(count_suit(other, s) >= 5);
        }
    }
    assert forall|s: Suit| #[trigger] suit_straight_top(other, s) == suit_straight_top(cards, s) by {
        assert(count_suit(other, s) == count_suit(cards, s));
        assert(reorders(of_suit(other, s), of_suit(cards, s)));
        lemma_counts_of_reordering(of_suit(other, s), of_suit(cards, s));
        lemma_straights_by_counts(of_suit(other, s), of_suit(cards, s), 14);
    }
    assert(holds_straight_flush(other) == holds_straight_flush(cards)) by {
        if holds_straight_flush(other) {
            let s = choose|s: Suit| #[trigger] suit_straight_top(other, s) != 0;
            assert(suit_straight_top(cards, s) != 0);
        }
        if holds_straight_flush(cards) {
            let s = choose|s: Suit| #[trigger] suit_straight_top(cards, s) != 0;
            assert(suit_straight_top(other, s) != 0);
        }
    }
    assert(holds_royal_flush(other) == holds_royal_flush(cards)) by {
        if holds_royal_flush(other) {
            let s = choose|s: Suit| #[trigger] suit_straight_top(other, s) == 14;
            assert(suit_straight_top(cards, s) == 14);
        }
        if holds_royal_flush(cards) {
            let s = choose|s: Suit| #[trigger] suit_straight_top(cards, s) == 14;
            assert(suit_straight_top(other, s) == 14);
        }
    }
    assert(some_rank_has(other, 2) == some_rank_has(cards, 2));
    assert(some_rank_has(other, 3) == some_rank_has(cards, 3));
    assert(some_rank_has(other, 4) == some_rank_has(cards, 4));
    assert(two_ranks_have(other, 2, 2) == two_ranks_have(cards, 2, 2));
    assert(two_ranks_have(other, 3, 2) == two_ranks_have(cards, 3, 2));
}

} // verus!
