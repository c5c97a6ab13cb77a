//! The order of hands by strength.
//!
//! The category decides first. Between hands of one category the cards that
//! make up the hand decide, compared rank by rank in the order in which the
//! result lists them; then the kickers, in the same way. Suits never decide.
//! Where one list is the beginning of the other, the shorter list is the
//! lesser: between results of one category that does not happen, since they
//! list equally many cards.

use crate::card::Card;
use crate::hand::{HandResult, HandResultView};
use std::cmp::Ordering;
use vstd::prelude::*;

verus! {

/// The order of two lists of cards by rank, place by place: -1 where the
/// first list is the lesser, 1 where it is the greater, 0 where the ranks
/// are the same throughout.
pub open spec fn rank_order(a: Seq<Card>, b: Seq<Card>) -> int
    decreases a.len(),
{
    if a.len() == 0 && b.len() == 0 {
        0
    } else if a.len() == 0 {
        -1
    } else if b.len() == 0 {
        1
    } else if a[0].rank() < b[0].rank() {
        -1
    } else if a[0].rank() > b[0].rank() {
        1
    } else {
        rank_order(a.skip(1), b.skip(1))
    }
}

/// The order of two hands by strength: -1 where the first is the weaker, 1
/// where it is the stronger, 0 where they tie.
pub open spec fn hand_order(a: HandResultView, b: HandResultView) -> int {
    if a.hand_type.ranking() < b.hand_type.ranking() {
        -1
    } else if a.hand_type.ranking() > b.hand_type.ranking() {
        1
    } else if rank_order(a.cards, b.cards) != 0 {
        rank_order(a.cards, b.cards)
    } else {
        rank_order(a.kickers, b.kickers)
    }
}

/// The ranks of the cards, in their order.
pub open spec fn ranks(cards: Seq<Card>) -> Seq<int> {
    Seq::new(cards.len(), |i: int| cards[i].rank())
}

/// Two lists tie exactly when they have the same ranks in the same places,
/// and turning the two round turns the order round.
proof fn lemma_rank_order_of_two(a: Seq<Card>, b: Seq<Card>)
    ensures
        -1 <= rank_order(a, b) <= 1,
        rank_order(a, b) == 0 <==> ranks(a) == ranks(b),
        rank_order(b, a) == -rank_order(a, b),
    decreases a.len(),
{
    if a.len() > 0 && b.len() > 0 {
        lemma_rank_order_of_two(a.skip(1), b.skip(1));
        if a[0].rank() == b[0].rank() {
            if rank_order(a, b) == 0 {
                assert(ranks(a.skip(1)).len() == ranks(b.skip(1)).len());
                assert forall|i: int| 0 <= i < a.len() implies ranks(a)[i] == ranks(b)[i] by {
                    if i > 0 {
                        assert(ranks(a.skip(1))[i - 1] == ranks(b.skip(1))[i - 1]);
                    }
                }
                assert(ranks(a) =~= ranks(b));
            }
            if ranks(a) == ranks(b) {
                assert(ranks(a).len() == ranks(b).len());
                assert forall|i: int| 0 <= i < a.len() - 1 implies ranks(a.skip(1))[i] == ranks(
                    b.skip(1),
                )[i] by {
                    assert(ranks(a)[i + 1] == ranks(b)[i + 1]);
                }
                assert(ranks(a.skip(1)) =~= ranks(b.skip(1)));
            }
        } else {
            assert(ranks(a)[0] != ranks(b)[0]);
        }
    } else {
        assert(ranks(a).len() == a.len() && ranks(b).len() == b.len());
        if a.len() == 0 && b.len() == 0 {
            assert(ranks(a) =~= ranks(b));
        }
    }
}

/// The order of lists carries over a list in the middle.
proof fn lemma_rank_order_of_three(a: Seq<Card>, b: Seq<Card>, c: Seq<Card>)
    ensures
        rank_order(a, b) <= 0 && rank_order(b, c) <= 0 ==> rank_order(a, c) <= 0,
        rank_order(a, b) <= 0 && rank_order(b, c) < 0 ==> rank_order(a, c) < 0,
        rank_order(a, b) < 0 && rank_order(b, c) <= 0 ==> rank_order(a, c) < 0,
    decreases a.len(),
{
    if a.len() > 0 && b.len() > 0 && c.len() > 0 {
        lemma_rank_order_of_three(a.skip(1), b.skip(1), c.skip(1));
    }
}

/// The order of lists by rank is a total order on what the lists say of
/// ranks: a list ties with itself, two lists tie exactly when they have the
/// same ranks in the same places, turning the two round turns the order
/// round, and the order carries over a list in the middle.
pub proof fn lemma_rank_order_is_total(a: Seq<Card>, b: Seq<Card>, c: Seq<Card>)
    ensures
        -1 <= rank_order(a, b) <= 1,
        rank_order(a, a) == 0,
        rank_order(a, b) == 0 <==> ranks(a) == ranks(b),
        rank_order(b, a) == -rank_order(a, b),
        rank_order(a, b) <= 0 && rank_order(b, c) <= 0 ==> rank_order(a, c) <= 0,
        rank_order(a, b) <= 0 && rank_order(b, c) < 0 ==> rank_order(a, c) < 0,
        rank_order(a, b) < 0 && rank_order(b, c) <= 0 ==> rank_order(a, c) < 0,
{
    lemma_rank_order_of_two(a, a);
    lemma_rank_order_of_two(a, b);
    lemma_rank_order_of_three(a, b, c);
}

/// The order of hands is a total order: a hand ties with itself, turning two
/// hands round turns the order round, and the order carries over a hand in
/// the middle. A hand of a stronger category is the stronger hand.
pub proof fn lemma_hand_order_is_total(a: HandResultView, b: HandResultView, c: HandResultView)
    ensures
        -1 <= hand_order(a, b) <= 1,
        hand_order(a, a) == 0,
        hand_order(b, a) == -hand_order(a, b),
        hand_order(a, b) <= 0 && hand_order(b, c) <= 0 ==> hand_order(a, c) <= 0,
        hand_order(a, b) == 0 <==> a.hand_type == b.hand_type && ranks(a.cards) == ranks(b.cards)
            && ranks(a.kickers) == ranks(b.kickers),
        a.hand_type.ranking() < b.hand_type.ranking() ==> hand_order(a, b) == -1,
        a.hand_type.ranking() > b.hand_type.ranking() ==> hand_order(a, b) == 1,
{
    lemma_rank_order_is_total(a.cards, b.cards, c.cards);
    lemma_rank_order_is_total(a.kickers, b.kickers, c.kickers);
    lemma_rank_order_is_total(a.cards, c.cards, c.cards);
    lemma_rank_order_is_total(a.kickers, c.kickers, c.kickers);
    lemma_rank_order_is_total(b.cards, c.cards, c.cards);
    lemma_rank_order_is_total(b.kickers, c.kickers, c.kickers);
    crate::hand::hand_types::lemma_ranking_strictly_increasing(a.hand_type, b.hand_type);
}

/// What `Ordering` says of a sign.
pub open spec fn ordering_of(sign: int) -> Ordering {
    if sign < 0 {
        Ordering::Less
    } else if sign == 0 {
        Ordering::Equal
    } else {
        Ordering::Greater
    }
}

/// The order of two lists of cards by rank, place by place.
fn rank_sign(a: &[Card], b: &[Card]) -> (sign: i8)
    ensures
        sign == rank_order(a@, b@),
{
    let mut i: usize = 0;
    proof {
        assert(a@.skip(0) =~= a@ && b@.skip(0) =~= b@);
    }
    while i < a.len() && i < b.len()
        invariant
            i <= a@.len(),
            i <= b@.len(),
            rank_order(a@, b@) == rank_order(a@.skip(i as int), b@.skip(i as int)),
        decreases a@.len() - i,
    {
        let left = a[i].value.to_u8();
        let right = b[i].value.to_u8();
        proof {
            assert(a@.skip(i as int)[0] == a@[i as int]);
            assert(b@.skip(i as int)[0] == b@[i as int]);
            assert(a@.skip(i as int).skip(1) =~= a@.skip(i + 1));
            assert(b@.skip(i as int).skip(1) =~= b@.skip(i + 1));
        }
        if left < right {
            return -1;
        }
        if left > right {
            return 1;
        }
        i += 1;
    }
    if i < b.len() {
        -1
    } else if i < a.len() {
        1
    } else {
        0
    }
}

/// The order of two hands by strength, as a sign.
fn hand_sign(a: &HandResult, b: &HandResult) -> (sign: i8)
    ensures
        sign == hand_order(a@, b@),
{
    let left = a.hand_type().ranking();
    let right = b.hand_type().ranking();
    if left < right {
        return -1;
    }
    if left > right {
        return 1;
    }
    let primary = rank_sign(a.primary_cards(), b.primary_cards());
    if primary != 0 {
        return primary;
    }
    rank_sign(a.kicker_cards(), b.kicker_cards())
}

/// Compares two hands by strength. The stronger category wins. Between hands
/// of one category the cards that make up the hand are compared by rank,
/// place by place, and the first difference decides; then the kickers in the
/// same way. Where nothing differs the hands tie. Suits are never looked at.
pub fn compare(a: &HandResult, b: &HandResult) -> (order: Ordering)
    ensures
        order == ordering_of(hand_order(a@, b@)),
{
    let sign = hand_sign(a, b);
    if sign < 0 {
        Ordering::Less
    } else if sign == 0 {
        Ordering::Equal
    } else {
        Ordering::Greater
    }
}

} // verus!
