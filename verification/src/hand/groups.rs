//! Grouping of a collection of cards by suit and by rank.
//!
//! Every group keeps its cards in the order in which the collection holds
//! them. Nothing is remembered between calls: each function works on the
//! cards it is given.

use crate::card::{Card, Suit, Value};
use vstd::prelude::*;

verus! {

/// The test "this card has the suit `suit`".
pub open spec fn suit_is(suit: Suit) -> spec_fn(Card) -> bool {
    |c: Card| c.suit == suit
}

/// The test "this card has the rank `rank`".
pub open spec fn rank_is(rank: int) -> spec_fn(Card) -> bool {
    |c: Card| c.value.rank() == rank
}

/// The cards of one suit, in the order of `cards`.
pub open spec fn of_suit(cards: Seq<Card>, suit: Suit) -> Seq<Card> {
    cards.filter(suit_is(suit))
}

/// The cards of one rank, in the order of `cards`.
pub open spec fn of_rank(cards: Seq<Card>, rank: int) -> Seq<Card> {
    cards.filter(rank_is(rank))
}

/// How many cards have the suit `suit`.
pub open spec fn count_suit(cards: Seq<Card>, suit: Suit) -> nat {
    of_suit(cards, suit).len()
}

/// How many cards have the rank `rank`.
pub open spec fn count_rank(cards: Seq<Card>, rank: int) -> nat {
    of_rank(cards, rank).len()
}

/// A table of counts by rank describes `cards`: it has a slot for each of the
/// ranks 0 to 14, and slot `r` holds the number of cards of rank `r`.
pub open spec fn counts_by_rank(counts: Seq<usize>, cards: Seq<Card>) -> bool {
    &&& counts.len() == 15
    &&& forall|r: int| 0 <= r < 15 ==> #[trigger] counts[r] == count_rank(cards, r)
}

/// A table of counts by suit describes `cards`: slot `s.index()` holds the
/// number of cards of suit `s`.
pub open spec fn counts_by_suit(counts: Seq<usize>, cards: Seq<Card>) -> bool {
    &&& counts.len() == 4
    &&& forall|s: Suit| #[trigger] counts[s.index()] == count_suit(cards, s)
}

/// Filtering the first `i + 1` cards: the card at `i` is added to what the
/// first `i` cards gave, if it passes the test.
pub proof fn lemma_filter_take_step(cards: Seq<Card>, i: int, keep: spec_fn(Card) -> bool)
    requires
        0 <= i < cards.len(),
    ensures
        cards.take(i + 1).filter(keep) == if keep(cards[i]) {
            cards.take(i).filter(keep).push(cards[i])
        } else {
            cards.take(i).filter(keep)
        },
{
    assert(cards.take(i + 1) =~= cards.take(i).push(cards[i]));
    cards.take(i).lemma_filter_push(cards[i], keep);
}

/// Nothing passes a test on no cards.
pub proof fn lemma_filter_none(cards: Seq<Card>, keep: spec_fn(Card) -> bool)
    requires
        cards.len() == 0,
    ensures
        cards.filter(keep) == Seq::<Card>::empty(),
{
    reveal(Seq::filter);
    assert(cards.filter(keep) =~= Seq::<Card>::empty());
}

/// Where no card passes the test, the test keeps no card.
pub proof fn lemma_filter_rejects_all(cards: Seq<Card>, keep: spec_fn(Card) -> bool)
    requires
        forall|i: int| 0 <= i < cards.len() ==> !keep(#[trigger] cards[i]),
    ensures
        cards.filter(keep) == Seq::<Card>::empty(),
    decreases cards.len(),
{
    if cards.len() == 0 {
        lemma_filter_none(cards, keep);
    } else {
        let init = cards.drop_last();
        assert(cards =~= init.push(cards.last()));
        lemma_filter_rejects_all(init, keep);
        init.lemma_filter_push(cards.last(), keep);
    }
}

/// A group is never larger than the collection it was taken from.
pub proof fn lemma_count_bounds(cards: Seq<Card>)
    ensures
        forall|r: int| #[trigger] count_rank(cards, r) <= cards.len(),
        forall|s: Suit| #[trigger] count_suit(cards, s) <= cards.len(),
{
    assert forall|r: int| #[trigger] count_rank(cards, r) <= cards.len() by {
        cards.lemma_filter_len(rank_is(r));
    }
    assert forall|s: Suit| #[trigger] count_suit(cards, s) <= cards.len() by {
        cards.lemma_filter_len(suit_is(s));
    }
}

/// A rank is counted exactly when some card has it.
pub proof fn lemma_count_rank_positive(cards: Seq<Card>, rank: int)
    ensures
        count_rank(cards, rank) > 0 <==> exists|i: int|
            0 <= i < cards.len() && (#[trigger] cards[i]).value.rank() == rank,
{
    let keep = rank_is(rank);
    if count_rank(cards, rank) > 0 {
        let c = of_rank(cards, rank)[0];
        cards.lemma_filter_pred(keep, 0);
        cards.lemma_filter_contains_rev(keep, c);
        let i = choose|i: int| 0 <= i < cards.len() && cards[i] == c;
        assert(cards[i].value.rank() == rank);
    }
    if exists|i: int| 0 <= i < cards.len() && (#[trigger] cards[i]).value.rank() == rank {
        let i = choose|i: int| 0 <= i < cards.len() && (#[trigger] cards[i]).value.rank() == rank;
        cards.lemma_filter_contains(keep, i);
    }
}

/// The cards of one suit, in the order of `cards`.
pub fn cards_with_suit(cards: &[Card], suit: Suit) -> (out: Vec<Card>)
    ensures
        out@ == of_suit(cards@, suit),
{
    let mut out: Vec<Card> = Vec::new();
    let mut i: usize = 0;
    proof {
        lemma_filter_none(cards@.take(0), suit_is(suit));
    }
    while i < cards.len()
        invariant
            i <= cards.len(),
            out@ == of_suit(cards@.take(i as int), suit),
        decreases cards.len() - i,
    {
        proof {
            lemma_filter_take_step(cards@, i as int, suit_is(suit));
        }
        if cards[i].suit == suit {
            out.push(cards[i]);
        }
        i += 1;
    }
    proof {
        assert(cards@.take(cards.len() as int) =~= cards@);
    }
    out
}

/// The cards of one rank, in the order of `cards`.
pub fn cards_with_rank(cards: &[Card], rank: u8) -> (out: Vec<Card>)
    ensures
        out@ == of_rank(cards@, rank as int),
{
    let mut out: Vec<Card> = Vec::new();
    let mut i: usize = 0;
    proof {
        lemma_filter_none(cards@.take(0), rank_is(rank as int));
    }
    while i < cards.len()
        invariant
            i <= cards.len(),
            out@ == of_rank(cards@.take(i as int), rank as int),
        decreases cards.len() - i,
    {
        proof {
            lemma_filter_take_step(cards@, i as int, rank_is(rank as int));
        }
        if cards[i].value.to_u8() == rank {
            out.push(cards[i]);
        }
        i += 1;
    }
    proof {
        assert(cards@.take(cards.len() as int) =~= cards@);
    }
    out
}

/// The cards of one value, in the order of `cards`.
pub fn cards_with_value(cards: &[Card], value: Value) -> (out: Vec<Card>)
    ensures
        out@ == of_rank(cards@, value.rank()),
{
    cards_with_rank(cards, value.to_u8())
}

/// Counts the cards of each rank: slot `r` of the table holds the number of
/// cards of rank `r`.
pub fn count_values(cards: &[Card]) -> (counts: Vec<usize>)
    ensures
        counts_by_rank(counts@, cards@),
{
    let mut counts: Vec<usize> = Vec::new();
    let mut r: usize = 0;
    while r < 15
        invariant
            r <= 15,
            counts.len() == r,
            forall|q: int| 0 <= q < r ==> counts[q] == 0,
        decreases 15 - r,
    {
        counts.push(0);
        r += 1;
    }
    let mut i: usize = 0;
    proof {
        assert forall|q: int| 0 <= q < 15 implies #[trigger] counts[q] == count_rank(
            cards@.take(0),
            q,
        ) by {
            lemma_filter_none(cards@.take(0), rank_is(q));
        }
    }
    while i < cards.len()
        invariant
            i <= cards.len(),
            counts_by_rank(counts@, cards@.take(i as int)),
        decreases cards.len() - i,
    {
        let rank = cards[i].value.to_u8() as usize;
        proof {
            lemma_count_bounds(cards@.take(i as int));
            assert forall|q: int| 0 <= q < 15 implies count_rank(cards@.take(i + 1), q) == if q
                == rank {
                count_rank(cards@.take(i as int), q) + 1
            } else {
                count_rank(cards@.take(i as int), q)
            } by {
                lemma_filter_take_step(cards@, i as int, rank_is(q));
            }
        }
        let seen = counts[rank];
        counts.set(rank, seen + 1);
        i += 1;
    }
    proof {
        assert(cards@.take(cards.len() as int) =~= cards@);
    }
    counts
}

/// Counts the cards of each suit: slot `s.index()` of the table holds the
/// number of cards of suit `s`.
pub fn count_suits(cards: &[Card]) -> (counts: Vec<usize>)
    ensures
        counts_by_suit(counts@, cards@),
{
    let mut counts: Vec<usize> = Vec::new();
    counts.push(0);
    counts.push(0);
    counts.push(0);
    counts.push(0);
    let mut i: usize = 0;
    proof {
        assert forall|s: Suit| #[trigger] counts[s.index()] == count_suit(cards@.take(0), s) by {
            lemma_filter_none(cards@.take(0), suit_is(s));
        }
    }
    while i < cards.len()
        invariant
            i <= cards.len(),
            counts_by_suit(counts@, cards@.take(i as int)),
        decreases cards.len() - i,
    {
        let slot = cards[i].suit.to_index();
        proof {
            lemma_count_bounds(cards@.take(i as int));
            assert forall|s: Suit| count_suit(cards@.take(i + 1), s) == if s.index() == slot {
                count_suit(cards@.take(i as int), s) + 1
            } else {
                count_suit(cards@.take(i as int), s)
            } by {
                lemma_filter_take_step(cards@, i as int, suit_is(s));
            }
        }
        let seen = counts[slot];
        counts.set(slot, seen + 1);
        i += 1;
    }
    proof {
        assert(cards@.take(cards.len() as int) =~= cards@);
    }
    counts
}

} // verus!
