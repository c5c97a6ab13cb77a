//! Cards in descending order of rank.
//!
//! The order is the one a stable sort gives: cards of higher rank come first,
//! and cards of the same rank stay in the order in which they were given. It
//! is stated here as what it is, the groups by rank laid end to end from the
//! aces down to the twos.

use crate::card::Card;
use crate::hand::groups::{
    lemma_filter_none, lemma_filter_rejects_all, lemma_filter_take_step, of_rank, rank_is,
};
use vstd::prelude::*;
use vstd::seq_lib::{lemma_multiset_commutative, to_multiset_build, to_multiset_len};

verus! {

/// The cards of rank `low` and above: the aces first, then the kings, and so
/// on down to rank `low`, each rank in the order of `cards`.
pub open spec fn ranked_from(cards: Seq<Card>, low: int) -> Seq<Card>
    decreases 15 - low,
{
    if low > 14 {
        Seq::empty()
    } else {
        ranked_from(cards, low + 1) + of_rank(cards, low)
    }
}

/// All the cards, highest rank first; cards of equal rank keep their order.
pub open spec fn by_rank_descending(cards: Seq<Card>) -> Seq<Card> {
    ranked_from(cards, 2)
}

/// No card is followed by a card of higher rank.
pub open spec fn is_descending(cards: Seq<Card>) -> bool {
    forall|i: int, j: int| 0 <= i < j < cards.len() ==> cards[i].rank() >= cards[j].rank()
}

/// The `n` highest cards, highest first; all of them where there are fewer.
pub open spec fn highest(cards: Seq<Card>, n: nat) -> Seq<Card> {
    let sorted = by_rank_descending(cards);
    if n <= sorted.len() {
        sorted.take(n as int)
    } else {
        sorted
    }
}

/// `ranked_from` is in descending order and holds no rank below `low`.
pub proof fn lemma_ranked_from_descending(cards: Seq<Card>, low: int)
    ensures
        is_descending(ranked_from(cards, low)),
        forall|i: int|
            0 <= i < ranked_from(cards, low).len() ==> low <= (#[trigger] ranked_from(
                cards,
                low,
            )[i]).rank() <= 14,
    decreases 15 - low,
{
    if low <= 14 {
        lemma_ranked_from_descending(cards, low + 1);
        let above = ranked_from(cards, low + 1);
        let group = of_rank(cards, low);
        assert forall|k: int| 0 <= k < group.len() implies (#[trigger] group[k]).rank() == low by {
            cards.lemma_filter_pred(rank_is(low), k);
        }
        let all = ranked_from(cards, low);
        assert(all == above + group);
        assert forall|i: int| 0 <= i < all.len() implies low <= (#[trigger] all[i]).rank()
            <= 14 by {
            if i < above.len() {
                assert(all[i] == above[i]);
            } else {
                assert(all[i] == group[i - above.len()]);
            }
        }
        assert forall|i: int, j: int| 0 <= i < j < all.len() implies all[i].rank()
            >= all[j].rank() by {
            if j < above.len() {
                assert(all[i] == above[i] && all[j] == above[j]);
            } else if i < above.len() {
                assert(all[i] == above[i]);
                assert(all[j] == group[j - above.len()]);
            } else {
                assert(all[i] == group[i - above.len()]);
                assert(all[j] == group[j - above.len()]);
            }
        }
    }
}

/// Adding a card to the collection adds it to `ranked_from`, if its rank is
/// `low` or above, and changes nothing else.
proof fn lemma_ranked_from_push(cards: Seq<Card>, c: Card, low: int)
    ensures
        ranked_from(cards.push(c), low).to_multiset() == if low <= c.rank() {
            ranked_from(cards, low).to_multiset().insert(c)
        } else {
            ranked_from(cards, low).to_multiset()
        },
    decreases 15 - low,
{
    if low <= 14 {
        lemma_ranked_from_push(cards, c, low + 1);
        cards.lemma_filter_push(c, rank_is(low));
        lemma_multiset_commutative(ranked_from(cards.push(c), low + 1), of_rank(cards.push(c), low));
        lemma_multiset_commutative(ranked_from(cards, low + 1), of_rank(cards, low));
        to_multiset_build(of_rank(cards, low), c);
        assert(ranked_from(cards.push(c), low).to_multiset() =~= if low <= c.rank() {
            ranked_from(cards, low).to_multiset().insert(c)
        } else {
            ranked_from(cards, low).to_multiset()
        });
    }
}

/// Sorting no cards gives no cards.
proof fn lemma_ranked_from_empty(cards: Seq<Card>, low: int)
    requires
        cards.len() == 0,
    ensures
        ranked_from(cards, low) == Seq::<Card>::empty(),
    decreases 15 - low,
{
    if low <= 14 {
        lemma_ranked_from_empty(cards, low + 1);
        lemma_filter_none(cards, rank_is(low));
        assert(ranked_from(cards, low) =~= Seq::<Card>::empty());
    }
}

/// Sorting rearranges: the sorted cards are the given cards, each as often as
/// it was given, and they are in descending order of rank.
pub proof fn lemma_by_rank_descending(cards: Seq<Card>)
    ensures
        by_rank_descending(cards).to_multiset() == cards.to_multiset(),
        by_rank_descending(cards).len() == cards.len(),
        is_descending(by_rank_descending(cards)),
    decreases cards.len(),
{
    lemma_ranked_from_descending(cards, 2);
    if cards.len() == 0 {
        lemma_ranked_from_empty(cards, 2);
        assert(cards =~= Seq::<Card>::empty());
    } else {
        let init = cards.drop_last();
        let last = cards.last();
        assert(cards =~= init.push(last));
        lemma_by_rank_descending(init);
        lemma_ranked_from_push(init, last, 2);
        to_multiset_build(init, last);
    }
    to_multiset_len(by_rank_descending(cards));
    to_multiset_len(cards);
}

/// Each card has a higher rank than the card before it.
pub open spec fn is_strictly_ascending(cards: Seq<Card>) -> bool {
    forall|i: int, j: int| 0 <= i < j < cards.len() ==> cards[i].rank() < cards[j].rank()
}

/// Cards that are all below a rank give nothing from that rank up.
proof fn lemma_ranked_from_above_all(cards: Seq<Card>, low: int)
    requires
        forall|i: int| 0 <= i < cards.len() ==> (#[trigger] cards[i]).rank() < low,
    ensures
        ranked_from(cards, low) == Seq::<Card>::empty(),
    decreases 15 - low,
{
    if low <= 14 {
        lemma_ranked_from_above_all(cards, low + 1);
        lemma_filter_rejects_all(cards, rank_is(low));
        assert(ranked_from(cards, low) =~= Seq::<Card>::empty());
    }
}

/// A card of higher rank than all the others, added at the end, comes first
/// when the cards are sorted.
proof fn lemma_ranked_from_push_highest(cards: Seq<Card>, c: Card, low: int)
    requires
        forall|i: int| 0 <= i < cards.len() ==> (#[trigger] cards[i]).rank() < c.rank(),
        c.rank() <= 14,
    ensures
        ranked_from(cards.push(c), low) == if low <= c.rank() {
            seq![c] + ranked_from(cards, low)
        } else {
            ranked_from(cards, low)
        },
    decreases 15 - low,
{
    if low <= 14 {
        lemma_ranked_from_push_highest(cards, c, low + 1);
        cards.lemma_filter_push(c, rank_is(low));
        if low == c.rank() {
            lemma_ranked_from_above_all(cards, low + 1);
            lemma_filter_rejects_all(cards, rank_is(low));
            assert(ranked_from(cards.push(c), low) =~= seq![c] + ranked_from(cards, low));
        } else if low < c.rank() {
            assert(ranked_from(cards.push(c), low) =~= seq![c] + ranked_from(cards, low));
        }
    }
}

/// Cards that are given lowest first, no two of one rank, are sorted by
/// turning them round.
pub proof fn lemma_sorting_turns_ascending_round(cards: Seq<Card>)
    requires
        is_strictly_ascending(cards),
    ensures
        by_rank_descending(cards) == cards.reverse(),
    decreases cards.len(),
{
    if cards.len() == 0 {
        lemma_ranked_from_above_all(cards, 2);
        assert(cards.reverse() =~= Seq::<Card>::empty());
    } else {
        let init = cards.drop_last();
        let last = cards.last();
        assert(cards =~= init.push(last));
        assert(is_strictly_ascending(init)) by {
            assert forall|i: int, j: int| 0 <= i < j < init.len() implies init[i].rank()
                < init[j].rank() by {
                assert(init[i] == cards[i] && init[j] == cards[j]);
            }
        }
        lemma_sorting_turns_ascending_round(init);
        assert forall|i: int| 0 <= i < init.len() implies (#[trigger] init[i]).rank()
            < last.rank() by {
            assert(init[i] == cards[i]);
        }
        crate::card::lemma_rank_determines_value(last.value, last.value);
        lemma_ranked_from_push_highest(init, last, 2);
        assert(by_rank_descending(cards) =~= cards.reverse());
    }
}

/// The `n` highest cards are `n` cards, or all the cards where there are
/// fewer, and they are in descending order of rank.
pub proof fn lemma_highest(cards: Seq<Card>, n: nat)
    ensures
        highest(cards, n).len() == if n <= cards.len() {
            n
        } else {
            cards.len()
        },
        is_descending(highest(cards, n)),
{
    lemma_by_rank_descending(cards);
}

/// The cards in descending order of rank; cards of equal rank keep the order
/// in which they were given.
pub fn sort_by_rank_descending(cards: &[Card]) -> (out: Vec<Card>)
    ensures
        out@ == by_rank_descending(cards@),
        out@.len() == cards@.len(),
        out@.to_multiset() == cards@.to_multiset(),
        is_descending(out@),
{
    let mut out: Vec<Card> = Vec::new();
    let mut low: u8 = 15;
    proof {
        assert(out@ =~= ranked_from(cards@, 15));
    }
    while low > 2
        invariant
            2 <= low <= 15,
            out@ == ranked_from(cards@, low as int),
        decreases low,
    {
        low -= 1;
        let ghost above = out@;
        let mut i: usize = 0;
        proof {
            lemma_filter_none(cards@.take(0), rank_is(low as int));
            assert(out@ =~= above + of_rank(cards@.take(0), low as int));
        }
        while i < cards.len()
            invariant
                i <= cards.len(),
                2 <= low <= 14,
                above == ranked_from(cards@, low + 1),
                out@ == above + of_rank(cards@.take(i as int), low as int),
            decreases cards.len() - i,
        {
            proof {
                lemma_filter_take_step(cards@, i as int, rank_is(low as int));
            }
            if cards[i].value.to_u8() == low {
                out.push(cards[i]);
                proof {
                    assert(out@ =~= above + of_rank(cards@.take(i + 1), low as int));
                }
            }
            i += 1;
        }
        proof {
            assert(cards@.take(cards.len() as int) =~= cards@);
        }
    }
    proof {
        lemma_by_rank_descending(cards@);
    }
    out
}

/// The `n` highest of the cards, highest first; all of them, sorted, where
/// there are fewer than `n`. Among cards of equal rank those given first are
/// preferred.
pub fn highest_cards(cards: &[Card], n: usize) -> (out: Vec<Card>)
    ensures
        out@ == highest(cards@, n as nat),
        n <= cards@.len() ==> out@.len() == n,
        n > cards@.len() ==> out@.len() == cards@.len(),
        is_descending(out@),
{
    let mut out = sort_by_rank_descending(cards);
    if n <= out.len() {
        out.truncate(n);
    }
    out
}

} // verus!
