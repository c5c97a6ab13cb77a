//! Hands made of cards of equal rank: the pair, two pair, three of a kind,
//! the full house and four of a kind.
//!
//! Where several ranks qualify for a place in the hand, the highest is taken.
//! The cards of a rank are taken in the order in which they were given.

use crate::card::Card;
use crate::hand::get_kickers::{
    first_of_rank, highest_rank_with_count, highest_slot_with, lemma_highest_rank_with,
    remove_first_of_rank, take_of_rank, top_rank_with, without_first,
};
use crate::hand::groups::{count_rank, count_values, counts_by_rank};
use crate::hand::hand_types::HandType;
use crate::hand::sorting::{highest, highest_cards};
use crate::hand::{Hand, HandResult, HandResultView, no_hand};
use crate::hand::get_best_hand::lemma_hand_of_type;
use vstd::prelude::*;

verus! {

/// At least `n` of the cards have one rank.
pub open spec fn some_rank_has(cards: Seq<Card>, n: nat) -> bool {
    exists|r: int| 2 <= r <= 14 && #[trigger] count_rank(cards, r) >= n
}

/// At least `n` of the cards have one rank, and at least `m` of them have
/// another.
pub open spec fn two_ranks_have(cards: Seq<Card>, n: nat, m: nat) -> bool {
    exists|a: int, b: int|
        2 <= a <= 14 && 2 <= b <= 14 && a != b && #[trigger] count_rank(cards, a) >= n
            && #[trigger] count_rank(cards, b) >= m
}

/// Two of the cards have the same rank.
pub open spec fn holds_pair(cards: Seq<Card>) -> bool {
    some_rank_has(cards, 2)
}

/// Two of the cards have one rank and two have another.
pub open spec fn holds_two_pair(cards: Seq<Card>) -> bool {
    two_ranks_have(cards, 2, 2)
}

/// Three of the cards have the same rank.
pub open spec fn holds_three_of_a_kind(cards: Seq<Card>) -> bool {
    some_rank_has(cards, 3)
}

/// Three of the cards have one rank and two have another.
pub open spec fn holds_full_house(cards: Seq<Card>) -> bool {
    two_ranks_have(cards, 3, 2)
}

/// Four of the cards have the same rank.
pub open spec fn holds_four_of_a_kind(cards: Seq<Card>) -> bool {
    some_rank_has(cards, 4)
}

/// Some slot for the ranks 2 to 14 of a table of counts holds at least `n`.
pub open spec fn some_slot_has(counts: Seq<usize>, n: nat) -> bool {
    exists|r: int| 2 <= r <= 14 && #[trigger] counts[r] >= n
}

/// One slot for the ranks 2 to 14 of a table of counts holds at least `n`,
/// and another holds at least `m`.
pub open spec fn two_slots_have(counts: Seq<usize>, n: nat, m: nat) -> bool {
    exists|a: int, b: int|
        2 <= a <= 14 && 2 <= b <= 14 && a != b && #[trigger] counts[a] >= n
            && #[trigger] counts[b] >= m
}

/// A table of counts that describes the cards answers for them.
pub proof fn lemma_slots_are_ranks(counts: Seq<usize>, cards: Seq<Card>, n: nat, m: nat)
    requires
        counts_by_rank(counts, cards),
    ensures
        some_slot_has(counts, n) <==> some_rank_has(cards, n),
        two_slots_have(counts, n, m) <==> two_ranks_have(cards, n, m),
{
    if some_slot_has(counts, n) {
        let r = choose|r: int| 2 <= r <= 14 && #[trigger] counts[r] >= n;
        assert(count_rank(cards, r) >= n);
    }
    if some_rank_has(cards, n) {
        let r = choose|r: int| 2 <= r <= 14 && #[trigger] count_rank(cards, r) >= n;
        assert(counts[r] >= n);
    }
    if two_slots_have(counts, n, m) {
        let (a, b) = choose|a: int, b: int|
            2 <= a <= 14 && 2 <= b <= 14 && a != b && #[trigger] counts[a] >= n
                && #[trigger] counts[b] >= m;
        assert(count_rank(cards, a) >= n && count_rank(cards, b) >= m);
    }
    if two_ranks_have(cards, n, m) {
        let (a, b) = choose|a: int, b: int|
            2 <= a <= 14 && 2 <= b <= 14 && a != b && #[trigger] count_rank(cards, a) >= n
                && #[trigger] count_rank(cards, b) >= m;
        assert(counts[a] >= n && counts[b] >= m);
    }
}

/// Some rank has `n` cards exactly when the search for the highest such rank
/// finds one.
pub proof fn lemma_some_rank_has(cards: Seq<Card>, n: nat)
    ensures
        some_rank_has(cards, n) <==> top_rank_with(cards, n, 0) != 0,
{
    lemma_highest_rank_with(cards, n, 0, 14);
}

/// Two ranks have `n` and `m` cards, with `m` no more than `n`, exactly when
/// the search finds a highest rank with `n` cards and, that rank left out, a
/// highest rank with `m` cards.
pub proof fn lemma_two_ranks_have(cards: Seq<Card>, n: nat, m: nat)
    requires
        m <= n,
    ensures
        two_ranks_have(cards, n, m) <==> top_rank_with(cards, n, 0) != 0 && top_rank_with(
            cards,
            m,
            top_rank_with(cards, n, 0),
        ) != 0,
{
    let first = top_rank_with(cards, n, 0);
    lemma_highest_rank_with(cards, n, 0, 14);
    lemma_highest_rank_with(cards, m, first, 14);
    let second = top_rank_with(cards, m, first);
    if two_ranks_have(cards, n, m) {
        let (a, b) = choose|a: int, b: int|
            2 <= a <= 14 && 2 <= b <= 14 && a != b && #[trigger] count_rank(cards, a) >= n
                && #[trigger] count_rank(cards, b) >= m;
        assert(a <= first);
        if first == a {
            assert(b <= second);
        } else {
            assert(a <= second);
        }
    }
    if first != 0 && second != 0 {
        assert(count_rank(cards, first) >= n && count_rank(cards, second) >= m);
    }
}

/// The best pair in the cards with its three kickers, where the cards hold a
/// pair; no hand otherwise.
pub open spec fn pair_hand(cards: Seq<Card>) -> HandResultView {
    let pair = top_rank_with(cards, 2, 0);
    if pair == 0 {
        no_hand()
    } else {
        HandResultView {
            hand_type: HandType::Pair,
            cards: first_of_rank(cards, pair, 2),
            kickers: highest(without_first(cards, pair, 2), 3),
        }
    }
}

/// The two best pairs in the cards, the higher pair first, with their kicker,
/// where the cards hold two pair; no hand otherwise.
pub open spec fn two_pair_hand(cards: Seq<Card>) -> HandResultView {
    let high = top_rank_with(cards, 2, 0);
    let low = top_rank_with(cards, 2, high);
    if high == 0 || low == 0 {
        no_hand()
    } else {
        HandResultView {
            hand_type: HandType::TwoPair,
            cards: first_of_rank(cards, high, 2) + first_of_rank(cards, low, 2),
            kickers: highest(without_first(without_first(cards, high, 2), low, 2), 1),
        }
    }
}

/// The best three of a kind in the cards with its two kickers, where the
/// cards hold three of a kind; no hand otherwise.
pub open spec fn three_of_a_kind_hand(cards: Seq<Card>) -> HandResultView {
    let triple = top_rank_with(cards, 3, 0);
    if triple == 0 {
        no_hand()
    } else {
        HandResultView {
            hand_type: HandType::ThreeOfAKind,
            cards: first_of_rank(cards, triple, 3),
            kickers: highest(without_first(cards, triple, 3), 2),
        }
    }
}

/// The best full house in the cards: three cards of the highest rank that
/// has three, then two cards of the highest other rank that has two. No hand
/// where the cards hold no full house. A full house has no kickers.
pub open spec fn full_house_hand(cards: Seq<Card>) -> HandResultView {
    let triple = top_rank_with(cards, 3, 0);
    let pair = top_rank_with(cards, 2, triple);
    if triple == 0 || pair == 0 {
        no_hand()
    } else {
        HandResultView {
            hand_type: HandType::FullHouse,
            cards: first_of_rank(cards, triple, 3) + first_of_rank(cards, pair, 2),
            kickers: Seq::empty(),
        }
    }
}

/// The best four of a kind in the cards with its kicker, where the cards
/// hold four of a kind; no hand otherwise.
pub open spec fn four_of_a_kind_hand(cards: Seq<Card>) -> HandResultView {
    let quad = top_rank_with(cards, 4, 0);
    if quad == 0 {
        no_hand()
    } else {
        HandResultView {
            hand_type: HandType::FourOfAKind,
            cards: first_of_rank(cards, quad, 4),
            kickers: highest(without_first(cards, quad, 4), 1),
        }
    }
}

/// Whether some rank is counted twice or more in a table of counts by rank.
pub(crate) fn has_pair_with_counts(value_counts: &[usize]) -> (found: bool)
    requires
        value_counts@.len() == 15,
    ensures
        found == some_slot_has(value_counts@, 2),
{
    highest_slot_with(value_counts, 2, 0) != 0
}

/// Whether two ranks are each counted twice or more in a table of counts by
/// rank.
pub(crate) fn has_two_pair_with_counts(value_counts: &[usize]) -> (found: bool)
    requires
        value_counts@.len() == 15,
    ensures
        found == two_slots_have(value_counts@, 2, 2),
{
    let high = highest_slot_with(value_counts, 2, 0);
    if high == 0 {
        return false;
    }
    let low = highest_slot_with(value_counts, 2, high);
    proof {
        lemma_two_slots(value_counts@, 2, 2, high as int, low as int);
    }
    low != 0
}

/// Whether some rank is counted three times or more in a table of counts by
/// rank.
pub(crate) fn has_three_of_a_kind_with_counts(value_counts: &[usize]) -> (found: bool)
    requires
        value_counts@.len() == 15,
    ensures
        found == some_slot_has(value_counts@, 3),
{
    highest_slot_with(value_counts, 3, 0) != 0
}

/// Whether some rank is counted four times or more in a table of counts by
/// rank.
pub(crate) fn has_four_of_a_kind_with_counts(value_counts: &[usize]) -> (found: bool)
    requires
        value_counts@.len() == 15,
    ensures
        found == some_slot_has(value_counts@, 4),
{
    highest_slot_with(value_counts, 4, 0) != 0
}

/// Whether, in a table of counts by rank, one rank is counted three times or
/// more and another twice or more.
pub(crate) fn has_full_house_with_counts(value_counts: &[usize]) -> (found: bool)
    requires
        value_counts@.len() == 15,
    ensures
        found == two_slots_have(value_counts@, 3, 2),
{
    let triple = highest_slot_with(value_counts, 3, 0);
    if triple == 0 {
        return false;
    }
    let pair = highest_slot_with(value_counts, 2, triple);
    proof {
        lemma_two_slots(value_counts@, 3, 2, triple as int, pair as int);
    }
    pair != 0
}

/// Two slots hold `n` and `m`, with `m` no more than `n`, exactly when, the
/// highest slot with `n` left out, some slot holds `m`.
proof fn lemma_two_slots(counts: Seq<usize>, n: nat, m: nat, first: int, second: int)
    requires
        m <= n,
        2 <= first <= 14 && counts[first] >= n,
        forall|r: int| 2 <= r <= 14 && first < r ==> #[trigger] counts[r] < n,
        second == 0 || (2 <= second <= 14 && second != first && counts[second] >= m),
        forall|r: int| 2 <= r <= 14 && second < r && r != first ==> #[trigger] counts[r] < m,
    ensures
        two_slots_have(counts, n, m) <==> second != 0,
{
    if two_slots_have(counts, n, m) {
        let (a, b) = choose|a: int, b: int|
            2 <= a <= 14 && 2 <= b <= 14 && a != b && #[trigger] counts[a] >= n
                && #[trigger] counts[b] >= m;
        assert(a <= first);
        if first == a {
            assert(b <= second);
        } else {
            assert(a <= second);
        }
    }
    if second != 0 {
        assert(counts[first] >= n && counts[second] >= m);
    }
}

/// Whether two of the cards have the same rank.
pub fn has_pair(cards: &[Card]) -> (found: bool)
    ensures
        found == holds_pair(cards@),
{
    let value_counts = count_values(cards);
    proof {
        lemma_slots_are_ranks(value_counts@, cards@, 2, 2);
    }
    has_pair_with_counts(value_counts.as_slice())
}

/// Whether two of the cards have one rank and two have another.
pub fn has_two_pair(cards: &[Card]) -> (found: bool)
    ensures
        found == holds_two_pair(cards@),
{
    let value_counts = count_values(cards);
    proof {
        lemma_slots_are_ranks(value_counts@, cards@, 2, 2);
    }
    has_two_pair_with_counts(value_counts.as_slice())
}

/// Whether three of the cards have the same rank.
pub fn has_three_of_a_kind(cards: &[Card]) -> (found: bool)
    ensures
        found == holds_three_of_a_kind(cards@),
{
    let value_counts = count_values(cards);
    proof {
        lemma_slots_are_ranks(value_counts@, cards@, 3, 3);
    }
    has_three_of_a_kind_with_counts(value_counts.as_slice())
}

/// Whether three of the cards have one rank and two have another.
pub fn has_full_house(cards: &[Card]) -> (found: bool)
    ensures
        found == holds_full_house(cards@),
{
    let value_counts = count_values(cards);
    proof {
        lemma_slots_are_ranks(value_counts@, cards@, 3, 2);
    }
    has_full_house_with_counts(value_counts.as_slice())
}

/// Whether four of the cards have the same rank.
pub fn has_four_of_a_kind(cards: &[Card]) -> (found: bool)
    ensures
        found == holds_four_of_a_kind(cards@),
{
    let value_counts = count_values(cards);
    proof {
        lemma_slots_are_ranks(value_counts@, cards@, 4, 4);
    }
    has_four_of_a_kind_with_counts(value_counts.as_slice())
}

/// The first `n` cards of rank `rank` as a hand of the category `hand_type`,
/// with the `kickers` highest of the other cards.
fn hand_of_rank(cards: &[Card], hand_type: HandType, rank: u8, n: usize, kickers: usize) -> (result:
    HandResult)
    ensures
        result@ == (HandResultView {
            hand_type,
            cards: first_of_rank(cards@, rank as int, n as nat),
            kickers: highest(without_first(cards@, rank as int, n as nat), kickers as nat),
        }),
{
    let primary = take_of_rank(cards, rank, n);
    let rest = remove_first_of_rank(cards, rank, n);
    let kickers = highest_cards(rest.as_slice(), kickers);
    HandResult::new(hand_type, primary, kickers)
}

/// The result that says that the hand looked for was not found.
pub fn not_found() -> (result: HandResult)
    ensures
        result@ == no_hand(),
{
    HandResult::new(HandType::HighCard, Vec::new(), Vec::new())
}

impl Hand {
    /// Whether two cards of the hand have the same rank.
    pub fn has_pair(&self) -> (found: bool)
        ensures
            found == holds_pair(self@),
    {
        has_pair(self.as_slice())
    }

    /// Whether two cards of the hand have one rank and two have another.
    pub fn has_two_pair(&self) -> (found: bool)
        ensures
            found == holds_two_pair(self@),
    {
        has_two_pair(self.as_slice())
    }

    /// Whether three cards of the hand have the same rank.
    pub fn has_three_of_a_kind(&self) -> (found: bool)
        ensures
            found == holds_three_of_a_kind(self@),
    {
        has_three_of_a_kind(self.as_slice())
    }

    /// Whether three cards of the hand have one rank and two have another.
    pub fn has_full_house(&self) -> (found: bool)
        ensures
            found == holds_full_house(self@),
    {
        has_full_house(self.as_slice())
    }

    /// Whether four cards of the hand have the same rank.
    pub fn has_four_of_a_kind(&self) -> (found: bool)
        ensures
            found == holds_four_of_a_kind(self@),
    {
        has_four_of_a_kind(self.as_slice())
    }

    /// The best pair of the hand: the first two cards of the highest rank that
    /// two cards have, and as kickers the three highest of the other cards.
    /// Where the hand holds no pair, the result holds no cards.
    pub fn get_pair(&self) -> (result: HandResult)
        ensures
            result@ == pair_hand(self@),
            holds_pair(self@) <==> result@.hand_type == HandType::Pair,
            holds_pair(self@) && self@.len() >= 5 ==> result@.cards.len() == 2
                && result@.kickers.len() == 3,
    {
        proof {
            lemma_hand_of_type(self@, HandType::Pair);
        }
        let cards = self.as_slice();
        proof {
            lemma_some_rank_has(cards@, 2);
        }
        let pair = highest_rank_with_count(cards, 2, 0);
        if pair == 0 {
            return not_found();
        }
        hand_of_rank(cards, HandType::Pair, pair, 2, 3)
    }

    /// The two best pairs of the hand: the first two cards of the highest rank
    /// that two cards have, then the first two cards of the next such rank,
    /// and as kicker the highest of the other cards. Where the hand holds no
    /// two pair, the result holds no cards.
    pub fn get_two_pair(&self) -> (result: HandResult)
        ensures
            result@ == two_pair_hand(self@),
            holds_two_pair(self@) <==> result@.hand_type == HandType::TwoPair,
            holds_two_pair(self@) && self@.len() >= 5 ==> result@.cards.len() == 4
                && result@.kickers.len() == 1,
    {
        proof {
            lemma_hand_of_type(self@, HandType::TwoPair);
        }
        let cards = self.as_slice();
        proof {
            lemma_two_ranks_have(cards@, 2, 2);
        }
        let high = highest_rank_with_count(cards, 2, 0);
        let low = highest_rank_with_count(cards, 2, high);
        if high == 0 || low == 0 {
            return not_found();
        }
        let mut pairs = take_of_rank(cards, high, 2);
        let mut low_pair = take_of_rank(cards, low, 2);
        pairs.append(&mut low_pair);
        let without_high = remove_first_of_rank(cards, high, 2);
        let rest = remove_first_of_rank(without_high.as_slice(), low, 2);
        let kickers = highest_cards(rest.as_slice(), 1);
        HandResult::new(HandType::TwoPair, pairs, kickers)
    }

    /// The best three of a kind of the hand: the first three cards of the
    /// highest rank that three cards have, and as kickers the two highest of
    /// the other cards. Where the hand holds no three of a kind, the result
    /// holds no cards.
    pub fn get_three_of_a_kind(&self) -> (result: HandResult)
        ensures
            result@ == three_of_a_kind_hand(self@),
            holds_three_of_a_kind(self@) <==> result@.hand_type == HandType::ThreeOfAKind,
            holds_three_of_a_kind(self@) && self@.len() >= 5 ==> result@.cards.len() == 3
                && result@.kickers.len() == 2,
    {
        proof {
            lemma_hand_of_type(self@, HandType::ThreeOfAKind);
        }
        let cards = self.as_slice();
        proof {
            lemma_some_rank_has(cards@, 3);
        }
        let triple = highest_rank_with_count(cards, 3, 0);
        if triple == 0 {
            return not_found();
        }
        hand_of_rank(cards, HandType::ThreeOfAKind, triple, 3, 2)
    }

    /// The best full house of the hand: the first three cards of the highest
    /// rank that three cards have, then the first two cards of the highest
    /// other rank that two cards have. It has no kickers. Where the hand
    /// holds no full house, the result holds no cards.
    pub fn get_full_house(&self) -> (result: HandResult)
        ensures
            result@ == full_house_hand(self@),
            holds_full_house(self@) <==> result@.hand_type == HandType::FullHouse,
            holds_full_house(self@) && self@.len() >= 5 ==> result@.cards.len() == 5
                && result@.kickers.len() == 0,
    {
        proof {
            lemma_hand_of_type(self@, HandType::FullHouse);
        }
        let cards = self.as_slice();
        proof {
            lemma_two_ranks_have(cards@, 3, 2);
        }
        let triple = highest_rank_with_count(cards, 3, 0);
        let pair = highest_rank_with_count(cards, 2, triple);
        if triple == 0 || pair == 0 {
            return not_found();
        }
        let mut full_house = take_of_rank(cards, triple, 3);
        let mut two = take_of_rank(cards, pair, 2);
        full_house.append(&mut two);
        HandResult::new(HandType::FullHouse, full_house, Vec::new())
    }

    /// The best four of a kind of the hand: the first four cards of the
    /// highest rank that four cards have, and as kicker the highest of the
    /// other cards. Where the hand holds no four of a kind, the result holds
    /// no cards.
    pub fn get_four_of_a_kind(&self) -> (result: HandResult)
        ensures
            result@ == four_of_a_kind_hand(self@),
            holds_four_of_a_kind(self@) <==> result@.hand_type == HandType::FourOfAKind,
            holds_four_of_a_kind(self@) && self@.len() >= 5 ==> result@.cards.len() == 4
                && result@.kickers.len() == 1,
    {
        proof {
            lemma_hand_of_type(self@, HandType::FourOfAKind);
        }
        let cards = self.as_slice();
        proof {
            lemma_some_rank_has(cards@, 4);
        }
        let quad = highest_rank_with_count(cards, 4, 0);
        if quad == 0 {
            return not_found();
        }
        hand_of_rank(cards, HandType::FourOfAKind, quad, 4, 1)
    }
}

} // verus!
