//! Straights: five cards of consecutive ranks.
//!
//! A straight is named by its top rank. The ace counts high in the straight
//! that it tops and low in the wheel, the straight of ace, two, three, four
//! and five, whose top is the five. No other straight holds an ace: king,
//! ace, two, three, four is none.
//!
//! The detector works on the distinct values of the cards in ascending order.
//! Five neighbours in that list are a straight when the last is four ranks
//! above the first; the wheel is looked for apart.

use crate::card::{Card, Value, lemma_rank_determines_value, lemma_value_of_rank, value_of_rank};
use crate::hand::groups::{
    cards_with_value, count_rank, count_values, counts_by_rank, of_rank, rank_is,
};
use crate::hand::sorting::{
    by_rank_descending, is_strictly_ascending, lemma_sorting_turns_ascending_round,
    sort_by_rank_descending,
};
use crate::hand::hand_types::HandType;
use crate::hand::of_a_kind::not_found;
use crate::hand::{Hand, HandResult, HandResultView, no_hand};
use crate::hand::get_best_hand::lemma_hand_of_type;
use vstd::prelude::*;

verus! {

/// Some card has the rank `rank`.
pub open spec fn holds_rank(cards: Seq<Card>, rank: int) -> bool {
    count_rank(cards, rank) > 0
}

/// The rank at place `k` of the straight with top `top`, counted from the
/// top: the wheel runs five, four, three, two, ace.
pub open spec fn straight_rank(top: int, k: int) -> int {
    if top == 5 && k == 4 {
        14
    } else {
        top - k
    }
}

/// The cards hold a straight with top rank `top`.
pub open spec fn is_straight_top(cards: Seq<Card>, top: int) -> bool {
    &&& 5 <= top <= 14
    &&& holds_rank(cards, straight_rank(top, 0))
    &&& holds_rank(cards, straight_rank(top, 1))
    &&& holds_rank(cards, straight_rank(top, 2))
    &&& holds_rank(cards, straight_rank(top, 3))
    &&& holds_rank(cards, straight_rank(top, 4))
}

/// The cards hold a straight.
pub open spec fn holds_straight(cards: Seq<Card>) -> bool {
    exists|top: int| is_straight_top(cards, top)
}

/// The highest top, not above `from`, of a straight in the cards; 0 if there
/// is none.
pub open spec fn highest_straight_top(cards: Seq<Card>, from: int) -> int
    decreases from,
{
    if from < 5 {
        0
    } else if is_straight_top(cards, from) {
        from
    } else {
        highest_straight_top(cards, from - 1)
    }
}

/// The top of the best straight in the cards; 0 if they hold no straight.
pub open spec fn best_straight_top(cards: Seq<Card>) -> int {
    highest_straight_top(cards, 14)
}

/// `highest_straight_top` finds a straight, and the highest one within its
/// bound.
pub proof fn lemma_highest_straight_top(cards: Seq<Card>, from: int)
    ensures
        highest_straight_top(cards, from) == 0 || is_straight_top(
            cards,
            highest_straight_top(cards, from),
        ),
        highest_straight_top(cards, from) <= from || from < 0,
        forall|top: int|
            top <= from && #[trigger] is_straight_top(cards, top) ==> top <= highest_straight_top(
                cards,
                from,
            ),
    decreases from,
{
    if from >= 5 {
        lemma_highest_straight_top(cards, from - 1);
    }
}

/// The best straight is a straight, no straight in the cards tops it, and
/// there is one exactly when the cards hold a straight.
pub proof fn lemma_best_straight_top(cards: Seq<Card>)
    ensures
        best_straight_top(cards) != 0 <==> holds_straight(cards),
        best_straight_top(cards) != 0 ==> is_straight_top(cards, best_straight_top(cards)),
        forall|top: int| #[trigger] is_straight_top(cards, top) ==> top <= best_straight_top(cards),
{
    lemma_highest_straight_top(cards, 14);
}

/// A straight that no other straight tops is the best straight.
pub proof fn lemma_best_straight_top_is(cards: Seq<Card>, top: int)
    requires
        is_straight_top(cards, top),
        forall|other: int| #[trigger] is_straight_top(cards, other) ==> other <= top,
    ensures
        best_straight_top(cards) == top,
{
    lemma_best_straight_top(cards);
}

/// The values rise strictly.
pub open spec fn is_ascending(values: Seq<Value>) -> bool {
    forall|i: int, j: int|
        0 <= i < j < values.len() ==> (#[trigger] values[i]).rank() < (#[trigger] values[j]).rank()
}

/// `values` lists the distinct values of `cards` in ascending order.
pub open spec fn values_of(values: Seq<Value>, cards: Seq<Card>) -> bool {
    &&& is_ascending(values)
    &&& forall|v: Value| #[trigger] values.contains(v) <==> holds_rank(cards, v.rank())
}

/// The five values from place `i` on span exactly four ranks.
pub open spec fn is_run_at(values: Seq<Value>, i: int) -> bool {
    &&& 0 <= i
    &&& i + 4 < values.len()
    &&& values[i + 4].rank() - values[i].rank() == 4
}

/// Some five neighbours in `values` span exactly four ranks.
pub open spec fn has_run(values: Seq<Value>) -> bool {
    exists|i: int| is_run_at(values, i)
}

/// `values` holds the ace, the two, the three, the four and the five.
pub open spec fn holds_wheel(values: Seq<Value>) -> bool {
    &&& values.contains(Value::Ace)
    &&& values.contains(Value::Two)
    &&& values.contains(Value::Three)
    &&& values.contains(Value::Four)
    &&& values.contains(Value::Five)
}

/// In an ascending list, five neighbours that span four ranks are five
/// consecutive ranks.
pub proof fn lemma_run_is_consecutive(values: Seq<Value>, i: int)
    requires
        is_ascending(values),
        is_run_at(values, i),
    ensures
        forall|k: int| 0 <= k < 5 ==> (#[trigger] values[i + k]).rank() == values[i].rank() + k,
        6 <= values[i + 4].rank() <= 14,
{
    let a = values[i].rank();
    let b = values[i + 1].rank();
    let c = values[i + 2].rank();
    let d = values[i + 3].rank();
    let e = values[i + 4].rank();
    assert(a < b && b < c && c < d && d < e);
    lemma_rank_determines_value(values[i], values[i]);
}

/// Where `values` lists the distinct values of `cards`, a run in `values` is
/// a straight in `cards`, topped by the last value of the run.
pub proof fn lemma_run_gives_straight(values: Seq<Value>, cards: Seq<Card>, i: int)
    requires
        values_of(values, cards),
        is_run_at(values, i),
    ensures
        is_straight_top(cards, values[i + 4].rank()),
        values[i + 4].rank() >= 6,
{
    lemma_run_is_consecutive(values, i);
    assert(values.contains(values[i + 0]));
    assert(values.contains(values[i + 1]));
    assert(values.contains(values[i + 2]));
    assert(values.contains(values[i + 3]));
    assert(values.contains(values[i + 4]));
}

/// Where `values` lists the distinct values of `cards`, a straight in `cards`
/// that is not the wheel is a run in `values`.
pub proof fn lemma_straight_gives_run(values: Seq<Value>, cards: Seq<Card>, top: int) -> (i: int)
    requires
        values_of(values, cards),
        6 <= top <= 14,
        is_straight_top(cards, top),
    ensures
        is_run_at(values, i),
        values[i + 4].rank() == top,
{
    lemma_value_of_rank(top - 4);
    lemma_value_of_rank(top - 3);
    lemma_value_of_rank(top - 2);
    lemma_value_of_rank(top - 1);
    lemma_value_of_rank(top);
    assert(values.contains(value_of_rank(top - 4)));
    assert(values.contains(value_of_rank(top - 3)));
    assert(values.contains(value_of_rank(top - 2)));
    assert(values.contains(value_of_rank(top - 1)));
    assert(values.contains(value_of_rank(top)));
    let j0 = choose|j: int| 0 <= j < values.len() && values[j] == value_of_rank(top - 4);
    let j1 = choose|j: int| 0 <= j < values.len() && values[j] == value_of_rank(top - 3);
    let j2 = choose|j: int| 0 <= j < values.len() && values[j] == value_of_rank(top - 2);
    let j3 = choose|j: int| 0 <= j < values.len() && values[j] == value_of_rank(top - 1);
    let j4 = choose|j: int| 0 <= j < values.len() && values[j] == value_of_rank(top);
    lemma_next_rank_is_neighbour(values, j0, j1);
    lemma_next_rank_is_neighbour(values, j1, j2);
    lemma_next_rank_is_neighbour(values, j2, j3);
    lemma_next_rank_is_neighbour(values, j3, j4);
    j0
}

/// In an ascending list, the value one rank above another stands right
/// behind it.
proof fn lemma_next_rank_is_neighbour(values: Seq<Value>, i: int, j: int)
    requires
        is_ascending(values),
        0 <= i < values.len(),
        0 <= j < values.len(),
        values[j].rank() == values[i].rank() + 1,
    ensures
        j == i + 1,
{
    if j <= i {
        if j < i {
            assert(values[j].rank() < values[i].rank());
        }
    } else if j > i + 1 {
        assert(values[i].rank() < values[i + 1].rank());
        assert(values[i + 1].rank() < values[j].rank());
    }
}

/// Where `values` lists the distinct values of `cards`: the cards hold a
/// straight exactly when `values` has a run or holds the wheel.
pub proof fn lemma_straight_detection(values: Seq<Value>, cards: Seq<Card>)
    requires
        values_of(values, cards),
    ensures
        holds_straight(cards) <==> has_run(values) || holds_wheel(values),
        holds_wheel(values) <==> is_straight_top(cards, 5),
{
    assert(values.contains(Value::Ace) <==> holds_rank(cards, Value::Ace.rank()));
    assert(values.contains(Value::Two) <==> holds_rank(cards, Value::Two.rank()));
    assert(values.contains(Value::Three) <==> holds_rank(cards, Value::Three.rank()));
    assert(values.contains(Value::Four) <==> holds_rank(cards, Value::Four.rank()));
    assert(values.contains(Value::Five) <==> holds_rank(cards, Value::Five.rank()));
    assert(holds_wheel(values) <==> is_straight_top(cards, 5));
    if has_run(values) {
        let i = choose|i: int| is_run_at(values, i);
        lemma_run_gives_straight(values, cards, i);
        assert(holds_straight(cards));
    }
    if holds_wheel(values) {
        assert(holds_straight(cards));
    }
    if holds_straight(cards) {
        let top = choose|top: int| is_straight_top(cards, top);
        if top >= 6 {
            let i = lemma_straight_gives_run(values, cards, top);
            assert(has_run(values));
        } else {
            assert(holds_wheel(values));
        }
    }
}

/// The distinct values of the cards, in ascending order.
pub fn get_sorted_unique_values(cards: &[Card]) -> (values: Vec<Value>)
    ensures
        values_of(values@, cards@),
{
    let counts = count_values(cards);
    let mut values: Vec<Value> = Vec::new();
    let mut rank: u8 = 2;
    while rank <= 14
        invariant
            2 <= rank <= 15,
            counts_by_rank(counts@, cards@),
            is_ascending(values@),
            forall|v: Value| #[trigger]
                values@.contains(v) <==> v.rank() < rank && holds_rank(cards@, v.rank()),
        decreases 15 - rank,
    {
        if counts[rank as usize] > 0 {
            if let Some(value) = Value::from_u8(rank) {
                let ghost before = values@;
                values.push(value);
                proof {
                    assert forall|i: int, j: int| 0 <= i < j < values@.len() implies (
                    #[trigger] values@[i]).rank() < (#[trigger] values@[j]).rank() by {
                        assert(before.contains(before[i]));
                        if j < before.len() {
                            assert(values@[i] == before[i] && values@[j] == before[j]);
                        }
                    }
                    assert forall|v: Value| #[trigger]
                        values@.contains(v) <==> v.rank() < rank + 1 && holds_rank(
                            cards@,
                            v.rank(),
                        ) by {
                        lemma_rank_determines_value(v, value);
                        if values@.contains(v) {
                            let k = choose|k: int| 0 <= k < values@.len() && values@[k] == v;
                            if k < before.len() {
                                assert(before[k] == v);
                                assert(before.contains(v));
                            }
                        }
                        if v.rank() < rank + 1 && holds_rank(cards@, v.rank()) {
                            if v.rank() < rank {
                                assert(before.contains(v));
                                let k = choose|k: int| 0 <= k < before.len() && before[k] == v;
                                assert(values@[k] == v);
                            } else {
                                assert(values@[before.len() as int] == v);
                            }
                        }
                    }
                }
            }
        } else {
            proof {
                assert forall|v: Value| #[trigger]
                    values@.contains(v) <==> v.rank() < rank + 1 && holds_rank(
                        cards@,
                        v.rank(),
                    ) by {}
            }
        }
        rank += 1;
    }
    proof {
        assert forall|v: Value| #[trigger]
            values@.contains(v) <==> holds_rank(cards@, v.rank()) by {
            lemma_rank_determines_value(v, v);
        }
    }
    values
}

/// Whether `values` holds `value`.
pub fn contains_value(values: &[Value], value: Value) -> (found: bool)
    ensures
        found == values@.contains(value),
{
    let mut i: usize = 0;
    while i < values.len()
        invariant
            i <= values.len(),
            forall|k: int| 0 <= k < i ==> values@[k] != value,
        decreases values.len() - i,
    {
        if values[i] == value {
            return true;
        }
        i += 1;
    }
    false
}

/// Whether five neighbours in `values` span exactly four ranks. In the
/// ascending list of the distinct values of some cards, that is the test for
/// a straight with the ace high or without an ace.
pub fn has_consecutive_straight(values: &[Value]) -> (found: bool)
    ensures
        found == has_run(values@),
{
    if values.len() < 5 {
        return false;
    }
    let mut i: usize = 0;
    while i < values.len() - 4
        invariant
            values.len() >= 5,
            i <= values.len() - 4,
            forall|k: int| 0 <= k < i ==> !is_run_at(values@, k),
        decreases values.len() - i,
    {
        if values[i + 4].to_u8() == values[i].to_u8() + 4 {
            assert(is_run_at(values@, i as int));
            return true;
        }
        i += 1;
    }
    false
}

/// Whether `values` holds the wheel: ace, two, three, four and five.
pub fn has_ace_low_straight(values: &[Value]) -> (found: bool)
    ensures
        found == holds_wheel(values@),
{
    contains_value(values, Value::Ace) && contains_value(values, Value::Two) && contains_value(
        values,
        Value::Three,
    ) && contains_value(values, Value::Four) && contains_value(values, Value::Five)
}

/// Whether the cards hold a straight.
pub fn has_straight(cards: &[Card]) -> (found: bool)
    ensures
        found == holds_straight(cards@),
{
    let values = get_sorted_unique_values(cards);
    proof {
        lemma_straight_detection(values@, cards@);
    }
    has_consecutive_straight(values.as_slice()) || has_ace_low_straight(values.as_slice())
}

/// The five values of the run that starts at place `i`, as `values` lists
/// them.
pub open spec fn run_values(values: Seq<Value>, i: int) -> Seq<Value> {
    values.subrange(i, i + 5)
}

/// The values of the straight with top `top`, highest first; the wheel runs
/// five, four, three, two, ace.
pub open spec fn straight_values(top: int) -> Seq<Value> {
    Seq::new(5, |k: int| value_of_rank(straight_rank(top, k)))
}

/// The values of the straight with top `top` as the detector lists them:
/// lowest first, but the wheel as five, four, three, two, ace.
pub open spec fn listed_values(top: int) -> Seq<Value> {
    if top == 5 {
        straight_values(5)
    } else {
        Seq::new(5, |k: int| value_of_rank(top - 4 + k))
    }
}

/// The list is written as the wheel is: five values, from the five to the
/// ace.
pub open spec fn is_ace_low(entry: Seq<Value>) -> bool {
    entry.len() == 5 && entry[0] == Value::Five && entry[4] == Value::Ace
}

/// The top of a listed straight: five for the wheel, else the rank of the
/// last value.
pub open spec fn top_of(entry: Seq<Value>) -> int {
    if is_ace_low(entry) {
        5
    } else {
        entry[entry.len() - 1].rank()
    }
}

/// The runs that start before place `n`, in the order of their start, each
/// as `values` lists it, lowest first.
pub open spec fn runs_before(values: Seq<Value>, n: int) -> Seq<Seq<Value>>
    decreases n,
{
    if n <= 0 {
        Seq::empty()
    } else if is_run_at(values, n - 1) {
        runs_before(values, n - 1).push(run_values(values, n - 1))
    } else {
        runs_before(values, n - 1)
    }
}

/// Every straight that the detector finds in `values`: the runs from the
/// lowest to the highest, each lowest first as `values` lists it, then the
/// wheel if it is there, written five, four, three, two, ace.
pub open spec fn all_straights(values: Seq<Value>) -> Seq<Seq<Value>> {
    let runs = runs_before(values, values.len() - 4);
    if holds_wheel(values) {
        runs.push(straight_values(5))
    } else {
        runs
    }
}

/// What a list of lists of values holds.
pub open spec fn lists(straights: Seq<Vec<Value>>) -> Seq<Seq<Value>> {
    Seq::new(straights.len(), |j: int| straights[j]@)
}

/// `entry` is the list of values of a straight that `cards` hold, as the
/// detector lists it.
pub open spec fn is_straight_of(cards: Seq<Card>, entry: Seq<Value>) -> bool {
    &&& entry.len() == 5
    &&& is_straight_top(cards, top_of(entry))
    &&& entry == listed_values(top_of(entry))
}

/// For each value of `values`, the first of the cards that has that value.
pub open spec fn first_cards(cards: Seq<Card>, values: Seq<Value>) -> Seq<Card> {
    Seq::new(values.len(), |k: int| of_rank(cards, values[k].rank()).first())
}

/// The cards for a listed straight: for each of its values the first card
/// that has it, and these highest first; the wheel stays as it is listed,
/// five, four, three, two, ace.
pub open spec fn listed_cards(cards: Seq<Card>, entry: Seq<Value>) -> Seq<Card> {
    if is_ace_low(entry) {
        first_cards(cards, entry)
    } else {
        by_rank_descending(first_cards(cards, entry))
    }
}

/// The cards of the straight with top `top`: for each of its ranks, from the
/// top down, the first card of that rank.
pub open spec fn straight_cards(cards: Seq<Card>, top: int) -> Seq<Card> {
    first_cards(cards, straight_values(top))
}

/// The cards for a straight as it is listed are the cards of the straight
/// from the top down.
pub proof fn lemma_listed_cards(cards: Seq<Card>, top: int)
    requires
        is_straight_top(cards, top),
    ensures
        top_of(listed_values(top)) == top,
        listed_cards(cards, listed_values(top)) == straight_cards(cards, top),
{
    let entry = listed_values(top);
    lemma_value_of_rank(top);
    lemma_value_of_rank(top - 1);
    lemma_value_of_rank(top - 2);
    lemma_value_of_rank(top - 3);
    if top != 5 {
        lemma_value_of_rank(top - 4);
        assert(entry[0].rank() == top - 4 && entry[4].rank() == top);
        assert(!is_ace_low(entry));
        let up = first_cards(cards, entry);
        assert forall|k: int| 0 <= k < 5 implies (#[trigger] up[k]).rank() == top - 4 + k by {
            lemma_value_of_rank(top - 4 + k);
            assert(entry[k].rank() == top - 4 + k);
            cards.lemma_filter_pred(rank_is(top - 4 + k), 0);
        }
        assert(is_strictly_ascending(up));
        lemma_sorting_turns_ascending_round(up);
        assert forall|k: int| 0 <= k < 5 implies up.reverse()[k] == #[trigger] straight_cards(
            cards,
            top,
        )[k] by {
            lemma_value_of_rank(top - k);
            assert(straight_values(top)[k].rank() == top - k);
            assert(entry[4 - k].rank() == top - k);
        }
        assert(up.reverse() =~= straight_cards(cards, top));
    } else {
        assert(entry[0] == Value::Five && entry[4] == Value::Ace);
    }
}

/// Where `values` lists the distinct values of `cards`, a run in `values` is
/// listed as the straight that it is.
proof fn lemma_run_values(values: Seq<Value>, cards: Seq<Card>, i: int)
    requires
        values_of(values, cards),
        is_run_at(values, i),
    ensures
        is_straight_of(cards, run_values(values, i)),
        top_of(run_values(values, i)) == values[i + 4].rank(),
{
    lemma_run_is_consecutive(values, i);
    lemma_run_gives_straight(values, cards, i);
    let run = run_values(values, i);
    let top = values[i + 4].rank();
    assert(run[0] == values[i + 0] && run[4] == values[i + 4]);
    assert(!is_ace_low(run));
    assert forall|k: int| 0 <= k < 5 implies run[k] == #[trigger] listed_values(top)[k] by {
        assert(run[k] == values[i + k]);
        assert(values[i + k].rank() == values[i].rank() + k);
        lemma_rank_determines_value(run[k], run[k]);
    }
    assert(run =~= listed_values(top));
}

/// Where `values` lists the distinct values of `cards`, every run found is a
/// straight of the cards, and every run is found.
proof fn lemma_runs_before(values: Seq<Value>, cards: Seq<Card>, n: int)
    requires
        values_of(values, cards),
    ensures
        forall|j: int|
            0 <= j < runs_before(values, n).len() ==> is_straight_of(
                cards,
                #[trigger] runs_before(values, n)[j],
            ),
        forall|i: int|
            0 <= i < n && is_run_at(values, i) ==> exists|j: int|
                0 <= j < runs_before(values, n).len() && top_of(
                    #[trigger] runs_before(values, n)[j],
                ) == values[i + 4].rank(),
    decreases n,
{
    if n > 0 {
        lemma_runs_before(values, cards, n - 1);
        let before = runs_before(values, n - 1);
        let now = runs_before(values, n);
        if is_run_at(values, n - 1) {
            lemma_run_values(values, cards, n - 1);
        }
        assert forall|i: int| 0 <= i < n && is_run_at(values, i) implies exists|j: int|
            0 <= j < now.len() && top_of(#[trigger] now[j]) == values[i + 4].rank() by {
            if i < n - 1 {
                let j = choose|j: int|
                    0 <= j < before.len() && top_of(#[trigger] before[j]) == values[i + 4].rank();
                assert(now[j] == before[j]);
            } else {
                assert(now[now.len() - 1] == run_values(values, i));
            }
        }
    }
}

/// Where `values` lists the distinct values of `cards`, the straights that
/// the detector finds are the straights that the cards hold.
pub proof fn lemma_all_straights(values: Seq<Value>, cards: Seq<Card>)
    requires
        values_of(values, cards),
    ensures
        forall|j: int|
            0 <= j < all_straights(values).len() ==> is_straight_of(
                cards,
                #[trigger] all_straights(values)[j],
            ),
        forall|top: int|
            is_straight_top(cards, top) ==> exists|j: int|
                0 <= j < all_straights(values).len() && top_of(
                    #[trigger] all_straights(values)[j],
                ) == top,
{
    let n = values.len() - 4;
    let runs = runs_before(values, n);
    let all = all_straights(values);
    lemma_runs_before(values, cards, n);
    lemma_straight_detection(values, cards);
    let wheel = straight_values(5);
    assert(wheel[0] == Value::Five && wheel[4] == Value::Ace);
    assert(is_ace_low(wheel) && top_of(wheel) == 5);
    assert forall|j: int| 0 <= j < all.len() implies is_straight_of(cards, #[trigger] all[j]) by {
        if j < runs.len() {
            assert(all[j] == runs[j]);
        } else {
            assert(all[j] == wheel);
        }
    }
    assert forall|top: int| is_straight_top(cards, top) implies exists|j: int|
        0 <= j < all.len() && top_of(#[trigger] all[j]) == top by {
        if top >= 6 {
            let i = lemma_straight_gives_run(values, cards, top);
            let j = choose|j: int|
                0 <= j < runs.len() && top_of(#[trigger] runs[j]) == values[i + 4].rank();
            assert(all[j] == runs[j]);
        } else {
            assert(all[all.len() - 1] == wheel);
        }
    }
}

/// `entry` is one of the runs of `values` that start before place `n`.
pub open spec fn is_run_before(values: Seq<Value>, n: int, entry: Seq<Value>) -> bool {
    exists|i: int| 0 <= i < n && is_run_at(values, i) && entry == #[trigger] run_values(values, i)
}

/// Every run that is listed is a run of `values`.
proof fn lemma_listed_runs(values: Seq<Value>, n: int)
    ensures
        forall|j: int|
            0 <= j < runs_before(values, n).len() ==> is_run_before(
                values,
                n,
                #[trigger] runs_before(values, n)[j],
            ),
    decreases n,
{
    if n > 0 {
        lemma_listed_runs(values, n - 1);
        let before = runs_before(values, n - 1);
        let now = runs_before(values, n);
        assert forall|j: int| 0 <= j < now.len() implies is_run_before(
            values,
            n,
            #[trigger] now[j],
        ) by {
            if j < before.len() {
                assert(now[j] == before[j]);
                assert(is_run_before(values, n - 1, before[j]));
                let i = choose|i: int|
                    0 <= i < n - 1 && is_run_at(values, i) && before[j] == #[trigger] run_values(
                        values,
                        i,
                    );
                assert(now[j] == run_values(values, i));
            } else {
                assert(now[j] == run_values(values, n - 1));
            }
        }
    }
}

/// What the detector lists for values in ascending order: each entry is
/// five values, either the wheel as five, four, three, two, ace, or five
/// values that rise by one rank from each to the next. So no entry goes
/// round the ace: none holds both a king and a two.
pub proof fn lemma_listed_straights(values: Seq<Value>, j: int)
    requires
        is_ascending(values),
        0 <= j < all_straights(values).len(),
    ensures
        ({
            let entry = all_straights(values)[j];
            &&& entry.len() == 5
            &&& entry == straight_values(5) || forall|k: int|
                0 <= k < 5 ==> (#[trigger] entry[k]).rank() == entry[0].rank() + k
            &&& !(entry.contains(Value::King) && entry.contains(Value::Two))
        }),
{
    let n = values.len() - 4;
    let runs = runs_before(values, n);
    let entry = all_straights(values)[j];
    lemma_listed_runs(values, n);
    if j < runs.len() {
        assert(entry == runs[j]);
        let i = choose|i: int|
            0 <= i < n && is_run_at(values, i) && runs[j] == #[trigger] run_values(values, i);
        lemma_run_is_consecutive(values, i);
        assert forall|k: int| 0 <= k < 5 implies (#[trigger] entry[k]).rank() == entry[0].rank()
            + k by {
            assert(entry[k] == values[i + k]);
            assert(entry[0] == values[i + 0]);
        }
        if entry.contains(Value::King) && entry.contains(Value::Two) {
            let high = choose|k: int| 0 <= k < entry.len() && entry[k] == Value::King;
            let low = choose|k: int| 0 <= k < entry.len() && entry[k] == Value::Two;
            assert(entry[high].rank() == entry[0].rank() + high);
            assert(entry[low].rank() == entry[0].rank() + low);
        }
    } else {
        assert(entry == straight_values(5));
        if entry.contains(Value::King) {
            let high = choose|k: int| 0 <= k < entry.len() && entry[k] == Value::King;
            assert(entry[high] == value_of_rank(straight_rank(5, high)));
        }
    }
}

/// Every straight in `values`: each run, from the lowest to the highest, as
/// `values` lists it, and then the wheel if `values` holds it, written five,
/// four, three, two, ace.
pub fn find_all_straights(values: &[Value]) -> (straights: Vec<Vec<Value>>)
    ensures
        lists(straights@) == all_straights(values@),
{
    let mut straights: Vec<Vec<Value>> = Vec::new();
    proof {
        assert(lists(straights@) =~= Seq::<Seq<Value>>::empty());
    }
    if values.len() >= 5 {
        let mut i: usize = 0;
        while i < values.len() - 4
            invariant
                values.len() >= 5,
                i <= values.len() - 4,
                lists(straights@) == runs_before(values@, i as int),
            decreases values.len() - i,
        {
            if values[i + 4].to_u8() == values[i].to_u8() + 4 {
                let mut run: Vec<Value> = Vec::new();
                run.push(values[i]);
                run.push(values[i + 1]);
                run.push(values[i + 2]);
                run.push(values[i + 3]);
                run.push(values[i + 4]);
                let ghost before = straights@;
                proof {
                    assert(run@ =~= run_values(values@, i as int));
                }
                straights.push(run);
                proof {
                    assert(lists(straights@) =~= lists(before).push(run@));
                }
            }
            i += 1;
        }
    }
    if has_ace_low_straight(values) {
        let mut wheel: Vec<Value> = Vec::new();
        wheel.push(Value::Five);
        wheel.push(Value::Four);
        wheel.push(Value::Three);
        wheel.push(Value::Two);
        wheel.push(Value::Ace);
        let ghost before = straights@;
        proof {
            assert(wheel@ =~= straight_values(5));
        }
        straights.push(wheel);
        proof {
            assert(lists(straights@) =~= lists(before).push(wheel@));
        }
    }
    straights
}

/// The top of a listed straight: five for the wheel, else the rank of its
/// last value.
pub(crate) fn straight_top(straight: &Vec<Value>) -> (top: u8)
    requires
        straight@.len() == 5,
    ensures
        top == top_of(straight@),
{
    if straight[0] == Value::Five && straight[4] == Value::Ace {
        5
    } else {
        straight[4].to_u8()
    }
}

/// The place of the straight with the highest top in a list of straights.
pub(crate) fn best_straight_index(straights: &Vec<Vec<Value>>) -> (best: usize)
    requires
        straights@.len() > 0,
        forall|j: int| 0 <= j < straights@.len() ==> (#[trigger] straights@[j])@.len() == 5,
    ensures
        best < straights@.len(),
        forall|j: int|
            0 <= j < straights@.len() ==> top_of((#[trigger] straights@[j])@) <= top_of(
                straights@[best as int]@,
            ),
{
    let mut best: usize = 0;
    let mut j: usize = 1;
    while j < straights.len()
        invariant
            1 <= j <= straights@.len(),
            best < j,
            forall|k: int| 0 <= k < straights@.len() ==> (#[trigger] straights@[k])@.len() == 5,
            forall|k: int|
                0 <= k < j ==> top_of((#[trigger] straights@[k])@) <= top_of(
                    straights@[best as int]@,
                ),
        decreases straights@.len() - j,
    {
        if straight_top(&straights[j]) > straight_top(&straights[best]) {
            best = j;
        }
        j += 1;
    }
    best
}

/// The cards for a listed straight: for each of its values the first of the
/// cards that has it, and these highest first; the wheel stays as it is
/// listed.
pub(crate) fn get_cards_for_straight(cards: &[Card], straight_values: &[Value]) -> (out: Vec<Card>)
    requires
        forall|k: int|
            0 <= k < straight_values@.len() ==> holds_rank(
                cards@,
                (#[trigger] straight_values@[k]).rank(),
            ),
    ensures
        out@ == listed_cards(cards@, straight_values@),
{
    let is_ace_low = straight_values.len() == 5 && straight_values[0] == Value::Five
        && straight_values[4] == Value::Ace;
    let mut out: Vec<Card> = Vec::new();
    let mut k: usize = 0;
    while k < straight_values.len()
        invariant
            k <= straight_values@.len(),
            forall|q: int|
                0 <= q < straight_values@.len() ==> holds_rank(
                    cards@,
                    (#[trigger] straight_values@[q]).rank(),
                ),
            out@.len() == k,
            forall|q: int| 0 <= q < k ==> out@[q] == first_cards(cards@, straight_values@)[q],
        decreases straight_values@.len() - k,
    {
        let group = cards_with_value(cards, straight_values[k]);
        out.push(group[0]);
        k += 1;
    }
    proof {
        assert(out@ =~= first_cards(cards@, straight_values@));
    }
    if !is_ace_low {
        out = sort_by_rank_descending(out.as_slice());
    }
    out
}

/// The best straight among the cards: its top rank and its five cards, from
/// the top down. `None` where the cards hold no straight.
pub fn find_best_straight(cards: &[Card]) -> (found: Option<(u8, Vec<Card>)>)
    ensures
        match found {
            Some((top, run)) => {
                &&& top == best_straight_top(cards@)
                &&& 5 <= top <= 14
                &&& run@ == straight_cards(cards@, top as int)
            },
            None => best_straight_top(cards@) == 0,
        },
{
    let values = get_sorted_unique_values(cards);
    let straights = find_all_straights(values.as_slice());
    proof {
        lemma_all_straights(values@, cards@);
        lemma_best_straight_top(cards@);
        assert forall|j: int| 0 <= j < straights@.len() implies is_straight_of(
            cards@,
            (#[trigger] straights@[j])@,
        ) by {
            assert(lists(straights@)[j] == straights@[j]@);
        }
    }
    if straights.len() == 0 {
        proof {
            if best_straight_top(cards@) != 0 {
                let top = best_straight_top(cards@);
                assert(is_straight_top(cards@, top));
                let j = choose|j: int|
                    0 <= j < all_straights(values@).len() && top_of(
                        #[trigger] all_straights(values@)[j],
                    ) == top;
            }
        }
        return None;
    }
    let best = best_straight_index(&straights);
    let top = straight_top(&straights[best]);
    proof {
        let entry = straights@[best as int]@;
        assert(is_straight_of(cards@, entry));
        assert forall|other: int| #[trigger] is_straight_top(cards@, other) implies other
            <= top by {
            let j = choose|j: int|
                0 <= j < all_straights(values@).len() && top_of(
                    #[trigger] all_straights(values@)[j],
                ) == other;
            assert(lists(straights@)[j] == straights@[j]@);
        }
        lemma_best_straight_top_is(cards@, top as int);
        lemma_listed_cards(cards@, top as int);
        assert forall|k: int| 0 <= k < 5 implies holds_rank(cards@, (#[trigger] entry[k]).rank()) by {
            if top == 5 {
                lemma_value_of_rank(straight_rank(5, k));
            } else {
                lemma_value_of_rank(top - 4 + k);
            }
        }
    }
    let run = get_cards_for_straight(cards, straights[best].as_slice());
    Some((top, run))
}

/// Some number of the list is `n`.
pub open spec fn holds_number(numbers: Seq<i32>, n: int) -> bool {
    exists|i: int| 0 <= i < numbers.len() && #[trigger] numbers[i] == n
}

/// The list holds `low` and the four numbers that follow it.
pub open spec fn holds_five_from(numbers: Seq<i32>, low: int) -> bool {
    &&& holds_number(numbers, low)
    &&& holds_number(numbers, low + 1)
    &&& holds_number(numbers, low + 2)
    &&& holds_number(numbers, low + 3)
    &&& holds_number(numbers, low + 4)
}

/// The list holds five consecutive numbers.
pub open spec fn holds_five_contiguous(numbers: Seq<i32>) -> bool {
    exists|low: int| holds_five_from(numbers, low)
}

/// Whether the list holds the number `n`.
pub fn contains_number(numbers: &[i32], n: i32) -> (found: bool)
    ensures
        found == holds_number(numbers@, n as int),
{
    let mut i: usize = 0;
    while i < numbers.len()
        invariant
            i <= numbers.len(),
            forall|k: int| 0 <= k < i ==> numbers@[k] != n,
        decreases numbers.len() - i,
    {
        if numbers[i] == n {
            return true;
        }
        i += 1;
    }
    false
}

/// Whether the numbers, in whatever order and however often each is given,
/// hold five consecutive numbers.
pub fn has_contiguous_subsets_of_length_5(values: &[i32]) -> (found: bool)
    ensures
        found == holds_five_contiguous(values@),
{
    let mut i: usize = 0;
    while i < values.len()
        invariant
            i <= values.len(),
            forall|k: int| 0 <= k < i ==> !holds_five_from(values@, #[trigger] values@[k] as int),
        decreases values.len() - i,
    {
        let low = values[i];
        if low <= i32::MAX - 4 {
            if contains_number(values, low + 1) && contains_number(values, low + 2)
                && contains_number(values, low + 3) && contains_number(values, low + 4) {
                assert(holds_five_from(values@, low as int));
                return true;
            }
        } else {
            assert(!holds_number(values@, low + 4));
        }
        i += 1;
    }
    proof {
        if holds_five_contiguous(values@) {
            let low = choose|low: int| holds_five_from(values@, low);
            let k = choose|k: int| 0 <= k < values@.len() && #[trigger] values@[k] == low;
            assert(!holds_five_from(values@, values@[k] as int));
        }
    }
    false
}

/// The best straight in the cards, its five cards from the top down; the
/// wheel runs five, four, three, two, ace. No hand where the cards hold no
/// straight. A straight has no kickers.
pub open spec fn straight_hand(cards: Seq<Card>) -> HandResultView {
    let top = best_straight_top(cards);
    if top == 0 {
        no_hand()
    } else {
        HandResultView {
            hand_type: HandType::Straight,
            cards: straight_cards(cards, top),
            kickers: Seq::empty(),
        }
    }
}

impl Hand {
    /// Whether the hand holds a straight: five cards of consecutive ranks,
    /// the ace counting high, or low in ace, two, three, four, five.
    pub fn has_straight(&self) -> (found: bool)
        ensures
            found == holds_straight(self@),
    {
        has_straight(self.as_slice())
    }

    /// The best straight of the hand: for each rank of the straight with the
    /// highest top, from the top down, the first card of that rank. The
    /// wheel, whose top is the five, runs five, four, three, two, ace. It has
    /// no kickers. Where the hand holds no straight, the result holds no
    /// cards.
    pub fn get_straight(&self) -> (result: HandResult)
        ensures
            result@ == straight_hand(self@),
            holds_straight(self@) <==> result@.hand_type == HandType::Straight,
            holds_straight(self@) && self@.len() >= 5 ==> result@.cards.len() == 5
                && result@.kickers.len() == 0,
    {
        proof {
            lemma_hand_of_type(self@, HandType::Straight);
        }
        proof {
            lemma_best_straight_top(self@);
        }
        match find_best_straight(self.as_slice()) {
            Some((_, run)) => HandResult::new(HandType::Straight, run, Vec::new()),
            None => not_found(),
        }
    }
}

} // verus!
