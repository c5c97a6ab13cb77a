//! Hands of exactly five cards, read off the cards in descending order.
//!
//! With five cards in descending order of rank the category shows in which
//! neighbours are equal, whether the ranks step down by one, and whether the
//! suits agree. This way of telling the category owes nothing to counting
//! ranks and suits, and it agrees with the evaluation on every five cards.

use crate::card::Card;
use crate::hand::flushes::{
    holds_flush, holds_royal_flush, holds_straight_flush, suit_straight_top,
};
use crate::hand::get_best_hand::category;
use crate::hand::groups::{
    count_rank, count_suit, lemma_filter_none, lemma_filter_take_step, of_rank, of_suit, rank_is,
    suit_is,
};
use crate::hand::hand_types::HandType;
use crate::hand::of_a_kind::{some_rank_has, two_ranks_have,
    holds_four_of_a_kind, holds_full_house, holds_pair, holds_three_of_a_kind, holds_two_pair,
};
use crate::hand::sorting::{by_rank_descending, lemma_by_rank_descending, ranked_from};
use crate::hand::straights::{
    best_straight_top, holds_straight, is_straight_top, lemma_best_straight_top,
};
use crate::hand::straights::lemma_highest_straight_top;
use vstd::prelude::*;
use vstd::seq_lib::to_multiset_contains;

verus! {

/// The five cards have one suit.
pub open spec fn one_suit(five: Seq<Card>) -> bool {
    &&& five[0].suit == five[1].suit
    &&& five[1].suit == five[2].suit
    &&& five[2].suit == five[3].suit
    &&& five[3].suit == five[4].suit
}

/// The ranks of the five cards step down by one from each card to the next.
pub open spec fn steps_down(five: Seq<Card>) -> bool {
    &&& five[0].rank() == five[1].rank() + 1
    &&& five[1].rank() == five[2].rank() + 1
    &&& five[2].rank() == five[3].rank() + 1
    &&& five[3].rank() == five[4].rank() + 1
}

/// The five cards are ace, five, four, three, two.
pub open spec fn is_wheel(five: Seq<Card>) -> bool {
    &&& five[0].rank() == 14
    &&& five[1].rank() == 5
    &&& five[2].rank() == 4
    &&& five[3].rank() == 3
    &&& five[4].rank() == 2
}

/// The category of five cards that are given in descending order of rank.
pub open spec fn five_card_category(five: Seq<Card>) -> HandType {
    let a = five[0].rank();
    let b = five[1].rank();
    let c = five[2].rank();
    let d = five[3].rank();
    let e = five[4].rank();
    if one_suit(five) && steps_down(five) && a == 14 {
        HandType::RoyalFlush
    } else if one_suit(five) && (steps_down(five) || is_wheel(five)) {
        HandType::StraightFlush
    } else if a == d || b == e {
        HandType::FourOfAKind
    } else if (a == c && d == e) || (a == b && c == e) {
        HandType::FullHouse
    } else if one_suit(five) {
        HandType::Flush
    } else if steps_down(five) || is_wheel(five) {
        HandType::Straight
    } else if a == c || b == d || c == e {
        HandType::ThreeOfAKind
    } else if (a == b && c == d) || (a == b && d == e) || (b == c && d == e) {
        HandType::TwoPair
    } else if a == b || b == c || c == d || d == e {
        HandType::Pair
    } else {
        HandType::HighCard
    }
}

/// One for a test that is met, nothing for one that is not.
pub open spec fn one_if(met: bool) -> nat {
    if met {
        1
    } else {
        0
    }
}

/// Of five cards, as many pass a test as pass it one by one.
proof fn lemma_filter_of_five(five: Seq<Card>, keep: spec_fn(Card) -> bool)
    requires
        five.len() == 5,
    ensures
        five.filter(keep).len() == one_if(keep(five[0])) + one_if(keep(five[1])) + one_if(
            keep(five[2]),
        ) + one_if(keep(five[3])) + one_if(keep(five[4])),
        five.filter(keep).len() == 5 ==> five.filter(keep) == five,
{
    lemma_filter_none(five.take(0), keep);
    lemma_filter_take_step(five, 0, keep);
    lemma_filter_take_step(five, 1, keep);
    lemma_filter_take_step(five, 2, keep);
    lemma_filter_take_step(five, 3, keep);
    lemma_filter_take_step(five, 4, keep);
    assert(five.take(5) =~= five);
    if five.filter(keep).len() == 5 {
        assert(five.take(1).filter(keep) =~= five.take(1));
        assert(five.take(2).filter(keep) =~= five.take(2));
        assert(five.take(3).filter(keep) =~= five.take(3));
        assert(five.take(4).filter(keep) =~= five.take(4));
        assert(five.filter(keep) =~= five);
    }
}

/// Among the cards of rank `low` and above, in descending order, the cards of
/// a rank are the cards of that rank, or none where the rank is below `low`.
proof fn lemma_of_rank_of_ranked_from(cards: Seq<Card>, low: int, rank: int)
    requires
        2 <= rank <= 14,
    ensures
        of_rank(ranked_from(cards, low), rank) == if low <= rank {
            of_rank(cards, rank)
        } else {
            Seq::<Card>::empty()
        },
    decreases 15 - low,
{
    if low > 14 {
        lemma_filter_none(ranked_from(cards, low), rank_is(rank));
    } else {
        lemma_of_rank_of_ranked_from(cards, low + 1, rank);
        let above = ranked_from(cards, low + 1);
        let group = of_rank(cards, low);
        Seq::filter_distributes_over_add(above, group, rank_is(rank));
        assert forall|i: int| 0 <= i < group.len() implies (#[trigger] group[i]).rank() == low by {
            cards.lemma_filter_pred(rank_is(low), i);
        }
        lemma_filter_of_one_rank(group, low, rank);
        assert(of_rank(ranked_from(cards, low), rank) =~= if low <= rank {
            of_rank(cards, rank)
        } else {
            Seq::<Card>::empty()
        });
    }
}

/// Of cards that all have the rank `held`, all have a rank that is `held`
/// and none has another.
proof fn lemma_filter_of_one_rank(group: Seq<Card>, held: int, rank: int)
    requires
        forall|i: int| 0 <= i < group.len() ==> (#[trigger] group[i]).rank() == held,
    ensures
        of_rank(group, rank) == if rank == held {
            group
        } else {
            Seq::<Card>::empty()
        },
    decreases group.len(),
{
    if group.len() == 0 {
        lemma_filter_none(group, rank_is(rank));
        assert(group =~= Seq::<Card>::empty());
    } else {
        let init = group.drop_last();
        assert(group =~= init.push(group.last()));
        lemma_filter_of_one_rank(init, held, rank);
        init.lemma_filter_push(group.last(), rank_is(rank));
    }
}

/// Sorting leaves the number of cards of each rank as it was.
pub proof fn lemma_sorting_keeps_counts(cards: Seq<Card>, rank: int)
    requires
        2 <= rank <= 14,
    ensures
        count_rank(by_rank_descending(cards), rank) == count_rank(cards, rank),
{
    lemma_of_rank_of_ranked_from(cards, 2, rank);
}

/// The five cards `five` are `cards` in descending order of rank, and show
/// how many of `cards` have each rank.
pub open spec fn shows_ranks_of(five: Seq<Card>, cards: Seq<Card>) -> bool {
    &&& five.len() == 5
    &&& cards.len() == 5
    &&& five[0].rank() >= five[1].rank() >= five[2].rank() >= five[3].rank() >= five[4].rank()
    &&& 2 <= five[4].rank() && five[0].rank() <= 14
    &&& forall|r: int|
        2 <= r <= 14 ==> #[trigger] count_rank(cards, r) == one_if(five[0].rank() == r) + one_if(
            five[1].rank() == r,
        ) + one_if(five[2].rank() == r) + one_if(five[3].rank() == r) + one_if(
            five[4].rank() == r,
        )
}

/// Five cards in descending order show how many of them have each rank.
proof fn lemma_shows_ranks(cards: Seq<Card>)
    requires
        cards.len() == 5,
    ensures
        shows_ranks_of(by_rank_descending(cards), cards),
{
    let five = by_rank_descending(cards);
    lemma_by_rank_descending(cards);
    crate::hand::sorting::lemma_ranked_from_descending(cards, 2);
    assert(2 <= five[4].rank() && five[0].rank() <= 14);
    assert forall|r: int| 2 <= r <= 14 implies #[trigger] count_rank(cards, r) == one_if(
        five[0].rank() == r,
    ) + one_if(five[1].rank() == r) + one_if(five[2].rank() == r) + one_if(five[3].rank() == r)
        + one_if(five[4].rank() == r) by {
        lemma_sorting_keeps_counts(cards, r);
        lemma_filter_of_five(five, rank_is(r));
    }
}

/// Of five cards, those of equal rank stand together in descending order, so
/// a pair, three of a kind and four of a kind show in equal neighbours.
proof fn lemma_five_of_one_rank(five: Seq<Card>, cards: Seq<Card>)
    requires
        shows_ranks_of(five, cards),
    ensures
        holds_four_of_a_kind(cards) <==> five[0].rank() == five[3].rank() || five[1].rank()
            == five[4].rank(),
        holds_three_of_a_kind(cards) <==> five[0].rank() == five[2].rank() || five[1].rank()
            == five[3].rank() || five[2].rank() == five[4].rank(),
        holds_pair(cards) <==> five[0].rank() == five[1].rank() || five[1].rank()
            == five[2].rank() || five[2].rank() == five[3].rank() || five[3].rank()
            == five[4].rank(),
{
    let a = five[0].rank();
    let b = five[1].rank();
    let c = five[2].rank();
    let d = five[3].rank();
    let e = five[4].rank();
    assert(count_rank(cards, a) >= 1 && count_rank(cards, b) >= 1 && count_rank(cards, c) >= 1
        && count_rank(cards, d) >= 1 && count_rank(cards, e) >= 1);
}

/// Of five cards that are no four of a kind, a full house and two pair show
/// in equal neighbours.
proof fn lemma_five_of_two_ranks(five: Seq<Card>, cards: Seq<Card>)
    requires
        shows_ranks_of(five, cards),
        !holds_four_of_a_kind(cards),
    ensures
        holds_full_house(cards) <==> (five[0].rank() == five[2].rank() && five[3].rank()
            == five[4].rank()) || (five[0].rank() == five[1].rank() && five[2].rank()
            == five[4].rank()),
        holds_two_pair(cards) <==> (five[0].rank() == five[1].rank() && five[2].rank()
            == five[3].rank()) || (five[0].rank() == five[1].rank() && five[3].rank()
            == five[4].rank()) || (five[1].rank() == five[2].rank() && five[3].rank()
            == five[4].rank()),
{
    let a = five[0].rank();
    let b = five[1].rank();
    let c = five[2].rank();
    let d = five[3].rank();
    let e = five[4].rank();
    lemma_five_of_one_rank(five, cards);
    assert(count_rank(cards, a) >= 1 && count_rank(cards, b) >= 1 && count_rank(cards, c) >= 1
        && count_rank(cards, d) >= 1 && count_rank(cards, e) >= 1);
}

/// Five cards are a straight exactly when, in descending order, their ranks
/// step down by one or they are ace, five, four, three, two. The straight
/// that the ace tops is the one that steps down from the ace.
proof fn lemma_five_in_a_row(five: Seq<Card>, cards: Seq<Card>)
    requires
        shows_ranks_of(five, cards),
    ensures
        holds_straight(cards) <==> steps_down(five) || is_wheel(five),
        is_straight_top(cards, 14) <==> steps_down(five) && five[0].rank() == 14,
{
    let a = five[0].rank();
    let b = five[1].rank();
    let c = five[2].rank();
    let d = five[3].rank();
    let e = five[4].rank();
    assert(count_rank(cards, a) >= 1 && count_rank(cards, b) >= 1 && count_rank(cards, c) >= 1
        && count_rank(cards, d) >= 1 && count_rank(cards, e) >= 1);
    if steps_down(five) {
        assert(is_straight_top(cards, a));
    }
    if is_wheel(five) {
        assert(is_straight_top(cards, 5));
    }
    if holds_straight(cards) {
        let top = choose|top: int| is_straight_top(cards, top);
        lemma_straight_fills_five(five, cards, top);
    }
    if is_straight_top(cards, 14) {
        lemma_straight_fills_five(five, cards, 14);
    }
}

/// A straight among five cards takes all five: in descending order they are
/// the ranks of the straight.
proof fn lemma_straight_fills_five(five: Seq<Card>, cards: Seq<Card>, top: int)
    requires
        shows_ranks_of(five, cards),
        is_straight_top(cards, top),
    ensures
        top == 5 ==> is_wheel(five),
        top != 5 ==> steps_down(five) && five[0].rank() == top,
{
    let a = five[0].rank();
    let b = five[1].rank();
    let c = five[2].rank();
    let d = five[3].rank();
    let e = five[4].rank();
    if top == 5 {
        assert(count_rank(cards, 14) > 0);
        assert(count_rank(cards, 5) > 0);
        assert(count_rank(cards, 4) > 0);
        assert(count_rank(cards, 3) > 0);
        assert(count_rank(cards, 2) > 0);
    } else {
        assert(count_rank(cards, top) > 0);
        assert(count_rank(cards, top - 1) > 0);
        assert(count_rank(cards, top - 2) > 0);
        assert(count_rank(cards, top - 3) > 0);
        assert(count_rank(cards, top - 4) > 0);
    }
}

/// Two lists of five cards that hold the same cards agree on whether the
/// cards have one suit.
proof fn lemma_same_cards_same_suits(five: Seq<Card>, cards: Seq<Card>)
    requires
        five.len() == 5,
        cards.len() == 5,
        five.to_multiset() == cards.to_multiset(),
    ensures
        one_suit(five) <==> one_suit(cards),
{
    assert forall|i: int| 0 <= i < 5 implies cards.contains(#[trigger] five[i]) by {
        to_multiset_contains(five, five[i]);
        to_multiset_contains(cards, five[i]);
        assert(five.contains(five[i]));
    }
    assert forall|i: int| 0 <= i < 5 implies five.contains(#[trigger] cards[i]) by {
        to_multiset_contains(five, cards[i]);
        to_multiset_contains(cards, cards[i]);
        assert(cards.contains(cards[i]));
    }
    if one_suit(cards) {
        assert(cards.contains(five[0]) && cards.contains(five[1]) && cards.contains(five[2])
            && cards.contains(five[3]) && cards.contains(five[4]));
    }
    if one_suit(five) {
        assert(five.contains(cards[0]) && five.contains(cards[1]) && five.contains(cards[2])
            && five.contains(cards[3]) && five.contains(cards[4]));
    }
}

/// Five cards of which five have the suit `suit` have one suit, that one, and
/// are all of the cards of that suit; five cards of one suit are five cards
/// of the suit of the first.
proof fn lemma_suit_of_five(cards: Seq<Card>, suit: crate::card::Suit)
    requires
        cards.len() == 5,
    ensures
        count_suit(cards, suit) <= 5,
        count_suit(cards, suit) >= 5 ==> one_suit(cards) && suit == cards[0].suit && of_suit(
            cards,
            suit,
        ) == cards,
        one_suit(cards) && suit == cards[0].suit ==> count_suit(cards, suit) >= 5,
{
    lemma_filter_of_five(cards, suit_is(suit));
}

/// Five cards are a flush exactly when they have one suit; they are a
/// straight flush when they are both a flush and a straight, and a royal
/// flush when the straight is the one that the ace tops.
proof fn lemma_five_of_one_suit(cards: Seq<Card>)
    requires
        cards.len() == 5,
    ensures
        holds_flush(cards) <==> one_suit(cards),
        holds_straight_flush(cards) <==> one_suit(cards) && holds_straight(cards),
        holds_royal_flush(cards) <==> one_suit(cards) && is_straight_top(cards, 14),
{
    let first = cards[0].suit;
    lemma_suit_of_five(cards, first);
    lemma_best_straight_top(cards);
    lemma_highest_straight_top(cards, 14);
    if holds_flush(cards) {
        let suit = choose|suit: crate::card::Suit| #[trigger] count_suit(cards, suit) >= 5;
        lemma_suit_of_five(cards, suit);
    }
    if holds_straight_flush(cards) {
        let suit = choose|suit: crate::card::Suit| #[trigger] suit_straight_top(cards, suit) != 0;
        lemma_suit_of_five(cards, suit);
    }
    if holds_royal_flush(cards) {
        let suit = choose|suit: crate::card::Suit| #[trigger] suit_straight_top(cards, suit) == 14;
        lemma_suit_of_five(cards, suit);
    }
    if one_suit(cards) {
        assert(suit_straight_top(cards, first) == best_straight_top(cards));
    }
}

/// Of every five cards the evaluation gives the category that shows in the
/// cards when they are put in descending order of rank: equal neighbours,
/// ranks that step down by one, suits that agree.
pub proof fn lemma_five_cards_agree(cards: Seq<Card>)
    requires
        cards.len() == 5,
    ensures
        category(cards) == five_card_category(by_rank_descending(cards)),
{
    let five = by_rank_descending(cards);
    lemma_by_rank_descending(cards);
    lemma_shows_ranks(cards);
    lemma_five_of_one_rank(five, cards);
    lemma_five_in_a_row(five, cards);
    lemma_five_of_one_suit(cards);
    lemma_same_cards_same_suits(five, cards);
    if !holds_four_of_a_kind(cards) {
        lemma_five_of_two_ranks(five, cards);
    }
}

/// How many of the five cards have the rank `rank`.
pub open spec fn times(five: Seq<Card>, rank: int) -> nat {
    one_if(five[0].rank() == rank) + one_if(five[1].rank() == rank) + one_if(
        five[2].rank() == rank,
    ) + one_if(five[3].rank() == rank) + one_if(five[4].rank() == rank)
}

/// No two of the five cards have one rank.
pub open spec fn ranks_differ(five: Seq<Card>) -> bool {
    &&& five[0].rank() != five[1].rank()
    &&& five[0].rank() != five[2].rank()
    &&& five[0].rank() != five[3].rank()
    &&& five[0].rank() != five[4].rank()
    &&& five[1].rank() != five[2].rank()
    &&& five[1].rank() != five[3].rank()
    &&& five[1].rank() != five[4].rank()
    &&& five[2].rank() != five[3].rank()
    &&& five[2].rank() != five[4].rank()
    &&& five[3].rank() != five[4].rank()
}

/// The greater of two numbers.
pub open spec fn greater(a: int, b: int) -> int {
    if a >= b {
        a
    } else {
        b
    }
}

/// The lesser of two numbers.
pub open spec fn lesser(a: int, b: int) -> int {
    if a <= b {
        a
    } else {
        b
    }
}

/// The highest rank among the five cards.
pub open spec fn top_rank(five: Seq<Card>) -> int {
    greater(
        greater(greater(five[0].rank(), five[1].rank()), greater(five[2].rank(), five[3].rank())),
        five[4].rank(),
    )
}

/// The lowest rank among the five cards.
pub open spec fn low_rank(five: Seq<Card>) -> int {
    lesser(
        lesser(lesser(five[0].rank(), five[1].rank()), lesser(five[2].rank(), five[3].rank())),
        five[4].rank(),
    )
}

/// The ranks of the five cards are the five different ranks `a` to `e`, in
/// whatever order.
pub open spec fn ranks_are(five: Seq<Card>, a: int, b: int, c: int, d: int, e: int) -> bool {
    times(five, a) == 1 && times(five, b) == 1 && times(five, c) == 1 && times(five, d) == 1
        && times(five, e) == 1
}

/// The five cards have five different ranks that follow one another, or
/// that are ace, two, three, four and five.
pub open spec fn in_sequence(five: Seq<Card>) -> bool {
    ranks_differ(five) && (top_rank(five) - low_rank(five) == 4 || ranks_are(
        five,
        14,
        2,
        3,
        4,
        5,
    ))
}

/// Some rank occurs exactly `n` times among the five cards.
pub open spec fn some_rank_times(five: Seq<Card>, n: nat) -> bool {
    exists|r: int| #[trigger] times(five, r) == n
}

/// One rank occurs exactly `n` times among the five cards and another
/// exactly `m` times.
pub open spec fn two_ranks_times(five: Seq<Card>, n: nat, m: nat) -> bool {
    exists|a: int, b: int| a != b && #[trigger] times(five, a) == n && #[trigger] times(five, b) == m
}

/// The category of five different cards, in whatever order they are given,
/// told from their suits, from how often the ranks occur, and from the
/// highest and the lowest rank: the first that is met of royal flush (one
/// suit, and the ranks from ten to ace), straight flush (one suit, and in
/// sequence), four of a kind (a rank four times), full house (a rank three
/// times and a rank twice), flush (one suit), straight (in sequence), three
/// of a kind (a rank three times), two pair (two ranks twice), pair (a rank
/// twice); a high card otherwise.
pub open spec fn counted_category(five: Seq<Card>) -> HandType {
    if one_suit(five) && ranks_are(five, 10, 11, 12, 13, 14) {
        HandType::RoyalFlush
    } else if one_suit(five) && in_sequence(five) {
        HandType::StraightFlush
    } else if some_rank_times(five, 4) {
        HandType::FourOfAKind
    } else if two_ranks_times(five, 3, 2) {
        HandType::FullHouse
    } else if one_suit(five) {
        HandType::Flush
    } else if in_sequence(five) {
        HandType::Straight
    } else if some_rank_times(five, 3) {
        HandType::ThreeOfAKind
    } else if two_ranks_times(five, 2, 2) {
        HandType::TwoPair
    } else if some_rank_times(five, 2) {
        HandType::Pair
    } else {
        HandType::HighCard
    }
}

/// As many of five cards are counted for a rank as have it one by one; the
/// ranks are ranks of cards; and of five different cards no more than four
/// have one rank.
proof fn lemma_times(cards: Seq<Card>)
    requires
        cards.len() == 5,
    ensures
        forall|r: int| #[trigger] count_rank(cards, r) == times(cards, r),
        forall|i: int| 0 <= i < 5 ==> 2 <= (#[trigger] cards[i]).rank() <= 14,
        cards.no_duplicates() ==> forall|r: int| #[trigger] times(cards, r) <= 4,
{
    assert forall|r: int| #[trigger] count_rank(cards, r) == times(cards, r) by {
        lemma_filter_of_five(cards, rank_is(r));
    }
    assert forall|i: int| 0 <= i < 5 implies 2 <= (#[trigger] cards[i]).rank() <= 14 by {
        crate::card::lemma_rank_determines_value(cards[i].value, cards[i].value);
    }
    if cards.no_duplicates() {
        assert forall|r: int| #[trigger] times(cards, r) <= 4 by {
            if times(cards, r) == 5 {
                lemma_five_of_one_rank_repeat(cards);
            }
        }
    }
}

/// Five cards of one rank are not five different cards: there are four
/// suits.
proof fn lemma_five_of_one_rank_repeat(cards: Seq<Card>)
    requires
        cards.len() == 5,
        cards[0].rank() == cards[1].rank() == cards[2].rank() == cards[3].rank()
            == cards[4].rank(),
    ensures
        !cards.no_duplicates(),
{
    crate::card::lemma_rank_determines_value(cards[0].value, cards[1].value);
    crate::card::lemma_rank_determines_value(cards[0].value, cards[2].value);
    crate::card::lemma_rank_determines_value(cards[0].value, cards[3].value);
    crate::card::lemma_rank_determines_value(cards[0].value, cards[4].value);
    let a = cards[0].suit;
    let b = cards[1].suit;
    let c = cards[2].suit;
    let d = cards[3].suit;
    let e = cards[4].suit;
    assert(a == b || a == c || a == d || a == e || b == c || b == d || b == e || c == d || c == e
        || d == e);
    if a == b {
        assert(cards[0] == cards[1]);
    } else if a == c {
        assert(cards[0] == cards[2]);
    } else if a == d {
        assert(cards[0] == cards[3]);
    } else if a == e {
        assert(cards[0] == cards[4]);
    } else if b == c {
        assert(cards[1] == cards[2]);
    } else if b == d {
        assert(cards[1] == cards[3]);
    } else if b == e {
        assert(cards[1] == cards[4]);
    } else if c == d {
        assert(cards[2] == cards[3]);
    } else if c == e {
        assert(cards[2] == cards[4]);
    } else {
        assert(cards[3] == cards[4]);
    }
}

/// How many of five numbers are the number `x`.
#[verifier::opaque]
pub open spec fn among(x: int, a: int, b: int, c: int, d: int, e: int) -> nat {
    one_if(a == x) + one_if(b == x) + one_if(c == x) + one_if(d == x) + one_if(e == x)
}

/// Each of five numbers is among them, and one that is equal to another is
/// among them twice or more; no number is among five that fall strictly more
/// than once.
proof fn lemma_among(a: int, b: int, c: int, d: int, e: int)
    ensures
        among(a, a, b, c, d, e) >= 1,
        among(b, a, b, c, d, e) >= 1,
        among(c, a, b, c, d, e) >= 1,
        among(d, a, b, c, d, e) >= 1,
        among(e, a, b, c, d, e) >= 1,
        a == b || a == c || a == d || a == e ==> among(a, a, b, c, d, e) >= 2,
        b == c || b == d || b == e ==> among(b, a, b, c, d, e) >= 2,
        c == d || c == e ==> among(c, a, b, c, d, e) >= 2,
        d == e ==> among(d, a, b, c, d, e) >= 2,
        a != b && a != c && a != d && a != e && b != c && b != d && b != e && c != d && c != e
            && d != e ==> among(a, a, b, c, d, e) == 1 && among(b, a, b, c, d, e) == 1 && among(
            c,
            a,
            b,
            c,
            d,
            e,
        ) == 1 && among(d, a, b, c, d, e) == 1 && among(e, a, b, c, d, e) == 1,
{
    reveal(among);
}

/// No number is more than once among five numbers that fall strictly.
proof fn lemma_among_falling(x: int, p: int, q: int, r: int, s: int, t: int)
    requires
        p > q > r > s > t,
    ensures
        among(x, p, q, r, s, t) <= 1,
{
    reveal(among);
}

/// Five numbers, and the same numbers in descending order: the greatest of
/// the five is the first in that order, and the least is the last.
proof fn lemma_same_top_and_low(
    a: int,
    b: int,
    c: int,
    d: int,
    e: int,
    p: int,
    q: int,
    r: int,
    s: int,
    t: int,
)
    requires
        p >= q >= r >= s >= t,
        among(p, a, b, c, d, e) >= 1,
        among(t, a, b, c, d, e) >= 1,
        among(a, p, q, r, s, t) >= 1,
        among(b, p, q, r, s, t) >= 1,
        among(c, p, q, r, s, t) >= 1,
        among(d, p, q, r, s, t) >= 1,
        among(e, p, q, r, s, t) >= 1,
    ensures
        greater(greater(greater(a, b), greater(c, d)), e) == p,
        lesser(lesser(lesser(a, b), lesser(c, d)), e) == t,
{
    reveal(among);
    assert(a <= p && b <= p && c <= p && d <= p && e <= p);
    assert(a >= t && b >= t && c >= t && d >= t && e >= t);
}

/// Five numbers, and the same numbers in descending order: where each of
/// those in order is once among them, the order is strict.
proof fn lemma_once_is_strict(p: int, q: int, r: int, s: int, t: int)
    requires
        p >= q >= r >= s >= t,
        among(p, p, q, r, s, t) == 1,
        among(q, p, q, r, s, t) == 1,
        among(r, p, q, r, s, t) == 1,
        among(s, p, q, r, s, t) == 1,
    ensures
        p > q > r > s > t,
{
    reveal(among);
}

/// The five cards hold a rank as often as the five ranks that stand for them
/// hold it; and in descending order as often as in the order in which they
/// are given.
proof fn lemma_same_times(five: Seq<Card>, cards: Seq<Card>, x: int)
    requires
        shows_ranks_of(five, cards),
        count_rank(cards, x) == times(cards, x),
        2 <= x <= 14,
    ensures
        times(cards, x) == among(
            x,
            cards[0].rank(),
            cards[1].rank(),
            cards[2].rank(),
            cards[3].rank(),
            cards[4].rank(),
        ),
        among(
            x,
            cards[0].rank(),
            cards[1].rank(),
            cards[2].rank(),
            cards[3].rank(),
            cards[4].rank(),
        ) == among(
            x,
            five[0].rank(),
            five[1].rank(),
            five[2].rank(),
            five[3].rank(),
            five[4].rank(),
        ),
{
    reveal(among);
    let held = count_rank(cards, x);
    assert(held == one_if(five[0].rank() == x) + one_if(five[1].rank() == x) + one_if(
        five[2].rank() == x,
    ) + one_if(five[3].rank() == x) + one_if(five[4].rank() == x));
    assert(held == one_if(cards[0].rank() == x) + one_if(cards[1].rank() == x) + one_if(
        cards[2].rank() == x,
    ) + one_if(cards[3].rank() == x) + one_if(cards[4].rank() == x));
}

/// What the five cards in descending order say of the ranks, the cards say
/// in whatever order they are given.
proof fn lemma_order_apart(five: Seq<Card>, cards: Seq<Card>)
    requires
        shows_ranks_of(five, cards),
        forall|r: int| #[trigger] count_rank(cards, r) == times(cards, r),
        forall|i: int| 0 <= i < 5 ==> 2 <= (#[trigger] cards[i]).rank() <= 14,
    ensures
        top_rank(cards) == five[0].rank(),
        low_rank(cards) == five[4].rank(),
        ranks_differ(cards) <==> five[0].rank() > five[1].rank() > five[2].rank()
            > five[3].rank() > five[4].rank(),
{
    let a = cards[0].rank();
    let b = cards[1].rank();
    let c = cards[2].rank();
    let d = cards[3].rank();
    let e = cards[4].rank();
    let p = five[0].rank();
    let q = five[1].rank();
    let r = five[2].rank();
    let s = five[3].rank();
    let t = five[4].rank();
    lemma_same_times(five, cards, a);
    lemma_same_times(five, cards, b);
    lemma_same_times(five, cards, c);
    lemma_same_times(five, cards, d);
    lemma_same_times(five, cards, e);
    lemma_same_times(five, cards, p);
    lemma_same_times(five, cards, q);
    lemma_same_times(five, cards, r);
    lemma_same_times(five, cards, s);
    lemma_same_times(five, cards, t);
    lemma_among(a, b, c, d, e);
    lemma_among(p, q, r, s, t);
    lemma_same_top_and_low(a, b, c, d, e, p, q, r, s, t);
    if ranks_differ(cards) {
        lemma_once_is_strict(p, q, r, s, t);
    }
    if p > q > r > s > t {
        lemma_among_falling(a, p, q, r, s, t);
        lemma_among_falling(b, p, q, r, s, t);
        lemma_among_falling(c, p, q, r, s, t);
        lemma_among_falling(d, p, q, r, s, t);
    }
}

/// Five cards are a straight exactly when they are in sequence, and the
/// straight that the ace tops when their ranks are those from ten to ace.
proof fn lemma_five_in_sequence(cards: Seq<Card>)
    requires
        cards.len() == 5,
    ensures
        holds_straight(cards) <==> in_sequence(cards),
        is_straight_top(cards, 14) <==> ranks_are(cards, 10, 11, 12, 13, 14),
{
    let five = by_rank_descending(cards);
    lemma_shows_ranks(cards);
    lemma_times(cards);
    lemma_five_in_a_row(five, cards);
    lemma_order_apart(five, cards);
    assert(count_rank(cards, 14) == times(cards, 14));
    assert(count_rank(cards, 13) == times(cards, 13));
    assert(count_rank(cards, 12) == times(cards, 12));
    assert(count_rank(cards, 11) == times(cards, 11));
    assert(count_rank(cards, 10) == times(cards, 10));
    assert(count_rank(cards, 5) == times(cards, 5));
    assert(count_rank(cards, 4) == times(cards, 4));
    assert(count_rank(cards, 3) == times(cards, 3));
    assert(count_rank(cards, 2) == times(cards, 2));
    assert(is_wheel(five) <==> ranks_are(cards, 14, 2, 3, 4, 5));
    assert(is_wheel(five) ==> ranks_differ(cards));
}

/// Of five different cards, those that share a rank are told as well from
/// how often a rank occurs exactly as from how often it occurs at least.
proof fn lemma_five_counted(cards: Seq<Card>)
    requires
        cards.len() == 5,
        cards.no_duplicates(),
    ensures
        holds_four_of_a_kind(cards) <==> some_rank_times(cards, 4),
        !holds_four_of_a_kind(cards) ==> (holds_full_house(cards) <==> two_ranks_times(
            cards,
            3,
            2,
        )),
        !holds_four_of_a_kind(cards) ==> (holds_three_of_a_kind(cards) <==> some_rank_times(
            cards,
            3,
        )),
        !holds_three_of_a_kind(cards) ==> (holds_two_pair(cards) <==> two_ranks_times(
            cards,
            2,
            2,
        )),
        !holds_three_of_a_kind(cards) ==> (holds_pair(cards) <==> some_rank_times(cards, 2)),
{
    lemma_times(cards);
    lemma_counted_one_rank(cards, 4);
    lemma_counted_one_rank(cards, 3);
    lemma_counted_one_rank(cards, 2);
    lemma_counted_two_ranks(cards, 3, 2);
    lemma_counted_two_ranks(cards, 2, 2);
}

/// Where no rank occurs more than `n` times, some rank occurs `n` times at
/// least exactly when some rank occurs `n` times.
proof fn lemma_counted_one_rank(cards: Seq<Card>, n: nat)
    requires
        cards.len() == 5,
        n >= 1,
        forall|r: int| #[trigger] count_rank(cards, r) == times(cards, r),
        forall|i: int| 0 <= i < 5 ==> 2 <= (#[trigger] cards[i]).rank() <= 14,
    ensures
        !some_rank_has(cards, n + 1) ==> (some_rank_has(cards, n) <==> some_rank_times(cards, n)),
        some_rank_times(cards, n) ==> some_rank_has(cards, n),
{
    assert(2 <= cards[0].rank() <= 14 && 2 <= cards[1].rank() <= 14 && 2 <= cards[2].rank() <= 14
        && 2 <= cards[3].rank() <= 14 && 2 <= cards[4].rank() <= 14);
    if some_rank_times(cards, n) {
        let r = choose|r: int| #[trigger] times(cards, r) == n;
        assert(count_rank(cards, r) == times(cards, r));
        assert(2 <= r <= 14);
    }
    if some_rank_has(cards, n) && !some_rank_has(cards, n + 1) {
        let r = choose|r: int| 2 <= r <= 14 && #[trigger] count_rank(cards, r) >= n;
        assert(!(count_rank(cards, r) >= n + 1));
        assert(times(cards, r) == n);
    }
}

/// Where no rank occurs more than `n` times, two ranks occur `n` and `m`
/// times at least exactly when two ranks occur `n` and `m` times; here `m`
/// is two, and `n` is two or three.
proof fn lemma_counted_two_ranks(cards: Seq<Card>, n: nat, m: nat)
    requires
        cards.len() == 5,
        m == 2,
        n == 2 || n == 3,
        forall|r: int| #[trigger] count_rank(cards, r) == times(cards, r),
        forall|i: int| 0 <= i < 5 ==> 2 <= (#[trigger] cards[i]).rank() <= 14,
    ensures
        !some_rank_has(cards, n + 1) ==> (two_ranks_have(cards, n, m) <==> two_ranks_times(
            cards,
            n,
            m,
        )),
{
    assert(2 <= cards[0].rank() <= 14 && 2 <= cards[1].rank() <= 14 && 2 <= cards[2].rank() <= 14
        && 2 <= cards[3].rank() <= 14 && 2 <= cards[4].rank() <= 14);
    if two_ranks_times(cards, n, m) {
        let (a, b) = choose|a: int, b: int|
            a != b && #[trigger] times(cards, a) == n && #[trigger] times(cards, b) == m;
        assert(count_rank(cards, a) == times(cards, a));
        assert(count_rank(cards, b) == times(cards, b));
        assert(2 <= a <= 14 && 2 <= b <= 14);
    }
    if two_ranks_have(cards, n, m) && !some_rank_has(cards, n + 1) {
        let (a, b) = choose|a: int, b: int|
            2 <= a <= 14 && 2 <= b <= 14 && a != b && #[trigger] count_rank(cards, a) >= n
                && #[trigger] count_rank(cards, b) >= m;
        assert(!(count_rank(cards, a) >= n + 1));
        assert(!(count_rank(cards, b) >= n + 1));
        assert(times(cards, a) == n);
        assert(times(cards, b) == m);
    }
}

/// Of every five different cards, in whatever order, the evaluation gives
/// the category that is told from the suits, from how often the ranks occur,
/// and from the highest and the lowest rank.
pub proof fn lemma_five_cards_of_the_deck(cards: Seq<Card>)
    requires
        cards.len() == 5,
        cards.no_duplicates(),
    ensures
        category(cards) == counted_category(cards),
        category(cards) == five_card_category(by_rank_descending(cards)),
{
    lemma_five_cards_agree(cards);
    lemma_five_of_one_suit(cards);
    lemma_five_in_sequence(cards);
    lemma_five_counted(cards);
}

} // verus!
