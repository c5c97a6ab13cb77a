//! Small tools on numbers and counts.

use crate::card::Card;
use crate::hand::groups::{count_rank, count_values, counts_by_rank, lemma_count_bounds};
use std::cmp::Ordering;
use vstd::prelude::*;
use vstd::seq_lib::{to_multiset_build, to_multiset_insert};

verus! {

/// The order of two numbers.
pub fn numerical_sort(a: &i32, b: &i32) -> (order: Ordering)
    ensures
        order == Ordering::Less <==> *a < *b,
        order == Ordering::Equal <==> *a == *b,
        order == Ordering::Greater <==> *a > *b,
{
    a.cmp(b)
}

/// For each rank below `high` that some card has, from the twos up, the
/// number of cards of that rank.
pub open spec fn counts_below(cards: Seq<Card>, high: int) -> Seq<i32>
    decreases high,
{
    if high <= 2 {
        Seq::empty()
    } else if count_rank(cards, high - 1) > 0 {
        counts_below(cards, high - 1).push(count_rank(cards, high - 1) as i32)
    } else {
        counts_below(cards, high - 1)
    }
}

/// For each rank that some card has, from the twos up, the number of cards
/// of that rank.
pub open spec fn value_counts(cards: Seq<Card>) -> Seq<i32> {
    counts_below(cards, 15)
}

/// No number is followed by a greater one.
pub open spec fn is_descending(numbers: Seq<i32>) -> bool {
    forall|i: int, j: int| 0 <= i < j < numbers.len() ==> numbers[i] >= numbers[j]
}

/// How often each rank occurs among the cards, the greatest number first:
/// one number for each rank that some card has, whatever the rank.
pub fn sort_value_counts(cards: &[Card]) -> (counts: Vec<i32>)
    requires
        cards@.len() <= i32::MAX,
    ensures
        is_descending(counts@),
        counts@.to_multiset() == value_counts(cards@).to_multiset(),
{
    let table = count_values(cards);
    let mut counts: Vec<i32> = Vec::new();
    let mut rank: usize = 2;
    proof {
        lemma_count_bounds(cards@);
    }
    while rank <= 14
        invariant
            2 <= rank <= 15,
            cards@.len() <= i32::MAX,
            counts_by_rank(table@, cards@),
            forall|r: int| #[trigger] count_rank(cards@, r) <= cards@.len(),
            is_descending(counts@),
            counts@.to_multiset() == counts_below(cards@, rank as int).to_multiset(),
        decreases 15 - rank,
    {
        if table[rank] > 0 {
            proof {
                assert(table@[rank as int] == count_rank(cards@, rank as int));
            }
            let count = table[rank] as i32;
            let mut place: usize = 0;
            while place < counts.len() && counts[place] >= count
                invariant
                    place <= counts@.len(),
                    forall|k: int| 0 <= k < place ==> counts@[k] >= count,
                decreases counts@.len() - place,
            {
                place += 1;
            }
            let ghost before = counts@;
            counts.insert(place, count);
            proof {
                to_multiset_insert(before, place as int, count);
                to_multiset_build(counts_below(cards@, rank as int), count);
                assert forall|i: int, j: int| 0 <= i < j < counts@.len() implies counts@[i]
                    >= counts@[j] by {
                    if j < place {
                        assert(counts@[i] == before[i] && counts@[j] == before[j]);
                    } else if j == place {
                        assert(counts@[i] == before[i]);
                    } else if i < place {
                        assert(counts@[i] == before[i] && counts@[j] == before[j - 1]);
                    } else if i == place {
                        assert(counts@[j] == before[j - 1]);
                        assert(before[place as int] >= before[j - 1] || j - 1 == place);
                    } else {
                        assert(counts@[i] == before[i - 1] && counts@[j] == before[j - 1]);
                    }
                }
            }
        }
        rank += 1;
    }
    counts
}

} // verus!
