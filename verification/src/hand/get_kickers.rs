//! The cards that make up a hand of equal ranks, the cards left over, and the
//! kickers taken from them.
//!
//! A pair, three of a kind and four of a kind are the first two, three or
//! four cards of one rank. What is left over when they are taken out gives
//! the kickers: its highest cards, as many as are wanted to fill the hand up
//! to five.

use crate::card::Card;
use crate::hand::groups::{
    cards_with_rank, count_rank, count_values, lemma_filter_none, lemma_filter_take_step, of_rank,
    rank_is,
};
use crate::hand::get_best_hand::hand_of_type;
use crate::hand::hand_types::HandType;
use crate::hand::Hand;
use vstd::prelude::*;
use vstd::seq_lib::{lemma_multiset_commutative, to_multiset_build};

verus! {

/// The highest rank, not above `from` and other than `except`, that at least
/// `n` of the cards have; 0 if there is none.
pub open spec fn highest_rank_with(cards: Seq<Card>, n: nat, except: int, from: int) -> int
    decreases from,
{
    if from < 2 {
        0
    } else if from != except && count_rank(cards, from) >= n {
        from
    } else {
        highest_rank_with(cards, n, except, from - 1)
    }
}

/// The highest rank other than `except` that at least `n` of the cards have;
/// 0 if there is none. With 0 for `except` no rank is left out.
pub open spec fn top_rank_with(cards: Seq<Card>, n: nat, except: int) -> int {
    highest_rank_with(cards, n, except, 14)
}

/// `highest_rank_with` finds a rank that qualifies, and the highest one
/// within its bound.
pub proof fn lemma_highest_rank_with(cards: Seq<Card>, n: nat, except: int, from: int)
    requires
        from <= 14,
    ensures
        ({
            let found = highest_rank_with(cards, n, except, from);
            &&& found == 0 || (2 <= found <= from && found != except && count_rank(cards, found)
                >= n)
            &&& forall|r: int|
                2 <= r <= from && r != except && #[trigger] count_rank(cards, r) >= n ==> r
                    <= found
        }),
    decreases from,
{
    if from >= 2 {
        lemma_highest_rank_with(cards, n, except, from - 1);
    }
}

/// The first `n` cards of rank `rank`, in the order of `cards`; all the cards
/// of that rank where there are fewer.
pub open spec fn first_of_rank(cards: Seq<Card>, rank: int, n: nat) -> Seq<Card> {
    let group = of_rank(cards, rank);
    if n <= group.len() {
        group.take(n as int)
    } else {
        group
    }
}

/// The cards without the first `n` cards of rank `rank`: a card is left out
/// when it has that rank and fewer than `n` cards of that rank stand before
/// it. The others keep their order.
pub open spec fn without_first(cards: Seq<Card>, rank: int, n: nat) -> Seq<Card>
    decreases cards.len(),
{
    if cards.len() == 0 {
        cards
    } else {
        let init = cards.drop_last();
        if cards.last().rank() == rank && count_rank(init, rank) < n {
            without_first(init, rank, n)
        } else {
            without_first(init, rank, n).push(cards.last())
        }
    }
}

/// The first cards of a rank and the cards without them are together the
/// cards that were given, each as often as it was given.
pub proof fn lemma_first_and_rest(cards: Seq<Card>, rank: int, n: nat)
    ensures
        first_of_rank(cards, rank, n).to_multiset().add(
            without_first(cards, rank, n).to_multiset(),
        ) == cards.to_multiset(),
        first_of_rank(cards, rank, n).len() + without_first(cards, rank, n).len() == cards.len(),
        first_of_rank(cards, rank, n).len() == if n <= count_rank(cards, rank) {
            n
        } else {
            count_rank(cards, rank)
        },
    decreases cards.len(),
{
    let first = first_of_rank(cards, rank, n);
    let rest = without_first(cards, rank, n);
    if cards.len() == 0 {
        lemma_filter_none(cards, rank_is(rank));
        lemma_multiset_commutative(first, rest);
        assert(first + rest =~= cards);
    } else {
        let init = cards.drop_last();
        let last = cards.last();
        assert(cards =~= init.push(last));
        lemma_first_and_rest(init, rank, n);
        init.lemma_filter_push(last, rank_is(rank));
        let first_init = first_of_rank(init, rank, n);
        let rest_init = without_first(init, rank, n);
        to_multiset_build(init, last);
        if last.rank() == rank && count_rank(init, rank) < n {
            assert(first =~= first_init.push(last));
            to_multiset_build(first_init, last);
            assert(first.to_multiset().add(rest.to_multiset()) =~= cards.to_multiset());
        } else {
            assert(first =~= first_init);
            to_multiset_build(rest_init, last);
            assert(first.to_multiset().add(rest.to_multiset()) =~= cards.to_multiset());
        }
    }
}

/// Taking out cards of one rank leaves the cards of every other rank as they
/// were.
pub proof fn lemma_without_first_other_rank(cards: Seq<Card>, rank: int, n: nat, other: int)
    requires
        rank != other,
    ensures
        of_rank(without_first(cards, rank, n), other) == of_rank(cards, other),
    decreases cards.len(),
{
    if cards.len() == 0 {
    } else {
        let init = cards.drop_last();
        let last = cards.last();
        assert(cards =~= init.push(last));
        lemma_without_first_other_rank(init, rank, n, other);
        init.lemma_filter_push(last, rank_is(other));
        without_first(init, rank, n).lemma_filter_push(last, rank_is(other));
    }
}

/// The highest of the ranks 2 to 14, other than `except`, whose slot in a
/// table of counts by rank holds at least `n`; 0 if there is none.
pub(crate) fn highest_slot_with(counts: &[usize], n: usize, except: u8) -> (rank: u8)
    requires
        counts@.len() == 15,
    ensures
        rank == 0 || (2 <= rank <= 14 && rank != except && counts@[rank as int] >= n),
        forall|r: int| 2 <= r <= 14 && rank < r && r != except ==> #[trigger] counts@[r] < n,
{
    let mut rank: u8 = 14;
    while rank >= 2
        invariant
            1 <= rank <= 14,
            counts@.len() == 15,
            forall|r: int| 2 <= r <= 14 && rank < r && r != except ==> #[trigger] counts@[r] < n,
        decreases rank,
    {
        if rank != except && counts[rank as usize] >= n {
            return rank;
        }
        rank -= 1;
    }
    0
}

/// The highest rank other than `except` that at least `n` of the cards have;
/// 0 if there is none. With 0 for `except` no rank is left out.
pub fn highest_rank_with_count(cards: &[Card], n: usize, except: u8) -> (rank: u8)
    ensures
        rank == top_rank_with(cards@, n as nat, except as int),
        rank == 0 || 2 <= rank <= 14,
{
    let counts = count_values(cards);
    let rank = highest_slot_with(counts.as_slice(), n, except);
    proof {
        lemma_highest_rank_with(cards@, n as nat, except as int, 14);
        let found = top_rank_with(cards@, n as nat, except as int);
        if found != 0 {
            assert(counts@[found] == count_rank(cards@, found));
        }
        if rank != 0 {
            assert(counts@[rank as int] == count_rank(cards@, rank as int));
        }
    }
    rank
}

/// The first `n` cards of rank `rank`, in the order of `cards`; all the cards
/// of that rank where there are fewer.
pub fn take_of_rank(cards: &[Card], rank: u8, n: usize) -> (out: Vec<Card>)
    ensures
        out@ == first_of_rank(cards@, rank as int, n as nat),
{
    let mut out = cards_with_rank(cards, rank);
    if n <= out.len() {
        out.truncate(n);
    }
    out
}

/// The cards without the first `n` cards of rank `rank`; the others keep
/// their order.
pub fn remove_first_of_rank(cards: &[Card], rank: u8, n: usize) -> (out: Vec<Card>)
    ensures
        out@ == without_first(cards@, rank as int, n as nat),
{
    let mut out: Vec<Card> = Vec::new();
    let mut seen: usize = 0;
    let mut i: usize = 0;
    proof {
        lemma_filter_none(cards@.take(0), rank_is(rank as int));
    }
    while i < cards.len()
        invariant
            i <= cards.len(),
            seen <= i,
            seen == count_rank(cards@.take(i as int), rank as int),
            out@ == without_first(cards@.take(i as int), rank as int, n as nat),
        decreases cards.len() - i,
    {
        proof {
            lemma_filter_take_step(cards@, i as int, rank_is(rank as int));
            assert(cards@.take(i + 1).drop_last() =~= cards@.take(i as int));
        }
        if cards[i].value.to_u8() == rank {
            if seen >= n {
                out.push(cards[i]);
            }
            seen += 1;
        } else {
            out.push(cards[i]);
        }
        i += 1;
    }
    proof {
        assert(cards@.take(cards.len() as int) =~= cards@);
    }
    out
}

impl Hand {
    /// The kickers of the best hand of the category `hand_type` in this hand:
    /// the highest of the cards that do not make up that hand, highest
    /// first, as many as fill it up to five cards. There are none where the
    /// hand does not hold the category, and none for a category whose hands
    /// are made up of five cards.
    pub fn get_kickers(&self, hand_type: HandType) -> (kickers: Vec<Card>)
        ensures
            kickers@ == hand_of_type(self@, hand_type).kickers,
    {
        match hand_type {
            HandType::Pair => self.get_pair().kickers(),
            HandType::TwoPair => self.get_two_pair().kickers(),
            HandType::ThreeOfAKind => self.get_three_of_a_kind().kickers(),
            HandType::FourOfAKind => self.get_four_of_a_kind().kickers(),
            _ => Vec::new(),
        }
    }
}

} // verus!
