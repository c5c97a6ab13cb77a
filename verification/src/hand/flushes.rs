//! Hands of one suit: the flush, the straight flush and the royal flush.
//!
//! A straight flush is a straight among the cards of one suit, looked for in
//! each suit that has five cards or more. The royal flush is the straight
//! flush that the ace tops. The suits are gone through in the order hearts,
//! diamonds, clubs, spades, and where two suits do equally well the earlier
//! one is taken.

use crate::card::{Card, Suit, Value};
use crate::hand::groups::{
    cards_with_suit, count_rank, count_suit, count_suits, count_values, lemma_count_bounds, of_suit,
};
use crate::hand::hand_types::HandType;
use crate::hand::of_a_kind::not_found;
use crate::hand::sorting::{
    by_rank_descending, highest, highest_cards, lemma_by_rank_descending, ranked_from,
};
use crate::hand::straights::{
    best_straight_top, find_best_straight, get_cards_for_straight, get_sorted_unique_values,
    has_ace_low_straight, has_consecutive_straight, holds_rank, is_straight_top,
    lemma_best_straight_top, lemma_listed_cards, lemma_straight_detection, listed_cards,
    listed_values, straight_cards, straight_values, values_of,
};
use crate::hand::{Hand, HandResult, HandResultView, no_hand};
use crate::hand::get_best_hand::lemma_hand_of_type;
use vstd::prelude::*;

verus! {

/// Five of the cards or more have the same suit.
pub open spec fn holds_flush(cards: Seq<Card>) -> bool {
    exists|s: Suit| #[trigger] count_suit(cards, s) >= 5
}

/// The first suit, in the order hearts, diamonds, clubs, spades, that five of
/// the cards or more have.
pub open spec fn flush_suit(cards: Seq<Card>) -> Option<Suit> {
    if count_suit(cards, Suit::Hearts) >= 5 {
        Some(Suit::Hearts)
    } else if count_suit(cards, Suit::Diamonds) >= 5 {
        Some(Suit::Diamonds)
    } else if count_suit(cards, Suit::Clubs) >= 5 {
        Some(Suit::Clubs)
    } else if count_suit(cards, Suit::Spades) >= 5 {
        Some(Suit::Spades)
    } else {
        None
    }
}

/// The flush in the cards: the five highest cards of the suit of the flush.
/// No hand where the cards hold no flush. A flush has no kickers.
pub open spec fn flush_hand(cards: Seq<Card>) -> HandResultView {
    match flush_suit(cards) {
        Some(suit) => HandResultView {
            hand_type: HandType::Flush,
            cards: highest(of_suit(cards, suit), 5),
            kickers: Seq::empty(),
        },
        None => no_hand(),
    }
}

/// The top of the best straight among the cards of suit `suit`, where five
/// of the cards or more have that suit; 0 where fewer have it or they hold no
/// straight.
pub open spec fn suit_straight_top(cards: Seq<Card>, suit: Suit) -> int {
    if count_suit(cards, suit) >= 5 {
        best_straight_top(of_suit(cards, suit))
    } else {
        0
    }
}

/// The cards of some suit hold a straight.
pub open spec fn holds_straight_flush(cards: Seq<Card>) -> bool {
    exists|s: Suit| #[trigger] suit_straight_top(cards, s) != 0
}

/// The cards of some suit hold the straight that the ace tops.
pub open spec fn holds_royal_flush(cards: Seq<Card>) -> bool {
    exists|s: Suit| #[trigger] suit_straight_top(cards, s) == 14
}

/// The suit of the best straight flush and its top: the suit whose best
/// straight has the highest top, the earlier suit where two do equally well.
/// The top is 0 where no suit holds a straight.
pub open spec fn best_straight_flush(cards: Seq<Card>) -> (Suit, int) {
    let hearts = suit_straight_top(cards, Suit::Hearts);
    let diamonds = suit_straight_top(cards, Suit::Diamonds);
    let clubs = suit_straight_top(cards, Suit::Clubs);
    let spades = suit_straight_top(cards, Suit::Spades);
    if hearts >= diamonds && hearts >= clubs && hearts >= spades {
        (Suit::Hearts, hearts)
    } else if diamonds >= clubs && diamonds >= spades {
        (Suit::Diamonds, diamonds)
    } else if clubs >= spades {
        (Suit::Clubs, clubs)
    } else {
        (Suit::Spades, spades)
    }
}

/// The best straight flush in the cards, its five cards from the top down.
/// No hand where the cards hold no straight flush. The straight flush that
/// the ace tops is the royal flush, and is reported as one. There are no
/// kickers.
pub open spec fn straight_flush_hand(cards: Seq<Card>) -> HandResultView {
    let (suit, top) = best_straight_flush(cards);
    if top == 0 {
        no_hand()
    } else {
        HandResultView {
            hand_type: if top == 14 {
                HandType::RoyalFlush
            } else {
                HandType::StraightFlush
            },
            cards: straight_cards(of_suit(cards, suit), top),
            kickers: Seq::empty(),
        }
    }
}

/// The first suit, in the order hearts, diamonds, clubs, spades, whose cards
/// hold the straight that the ace tops.
pub open spec fn royal_flush_suit(cards: Seq<Card>) -> Option<Suit> {
    if suit_straight_top(cards, Suit::Hearts) == 14 {
        Some(Suit::Hearts)
    } else if suit_straight_top(cards, Suit::Diamonds) == 14 {
        Some(Suit::Diamonds)
    } else if suit_straight_top(cards, Suit::Clubs) == 14 {
        Some(Suit::Clubs)
    } else if suit_straight_top(cards, Suit::Spades) == 14 {
        Some(Suit::Spades)
    } else {
        None
    }
}

/// The royal flush in the cards: ace, king, queen, jack and ten of one suit,
/// in that order. No hand where the cards hold no royal flush. There are no
/// kickers.
pub open spec fn royal_flush_hand(cards: Seq<Card>) -> HandResultView {
    match royal_flush_suit(cards) {
        Some(suit) => HandResultView {
            hand_type: HandType::RoyalFlush,
            cards: straight_cards(of_suit(cards, suit), 14),
            kickers: Seq::empty(),
        },
        None => no_hand(),
    }
}

/// A straight takes five cards.
pub proof fn lemma_straight_needs_five(cards: Seq<Card>, top: int)
    requires
        is_straight_top(cards, top),
    ensures
        cards.len() >= 5,
{
    lemma_by_rank_descending(cards);
    reveal_with_fuel(ranked_from, 15);
    assert(by_rank_descending(cards).len() == count_rank(cards, 14) + count_rank(cards, 13)
        + count_rank(cards, 12) + count_rank(cards, 11) + count_rank(cards, 10) + count_rank(
        cards,
        9,
    ) + count_rank(cards, 8) + count_rank(cards, 7) + count_rank(cards, 6) + count_rank(cards, 5)
        + count_rank(cards, 4) + count_rank(cards, 3) + count_rank(cards, 2));
}

/// The flush, the straight flush and the royal flush are found exactly when
/// the cards hold them; a royal flush is a straight flush, and a straight
/// flush is both a straight and a flush.
pub proof fn lemma_flush_hands(cards: Seq<Card>)
    ensures
        holds_flush(cards) <==> flush_suit(cards).is_some(),
        holds_flush(cards) <==> flush_hand(cards).hand_type == HandType::Flush,
        holds_straight_flush(cards) <==> best_straight_flush(cards).1 != 0,
        holds_straight_flush(cards) <==> straight_flush_hand(cards).hand_type
            == HandType::StraightFlush || straight_flush_hand(cards).hand_type
            == HandType::RoyalFlush,
        holds_royal_flush(cards) <==> straight_flush_hand(cards).hand_type == HandType::RoyalFlush,
        holds_royal_flush(cards) ==> straight_flush_hand(cards) == royal_flush_hand(cards),
        holds_royal_flush(cards) <==> royal_flush_suit(cards).is_some(),
        holds_royal_flush(cards) <==> royal_flush_hand(cards).hand_type == HandType::RoyalFlush,
        holds_royal_flush(cards) <==> best_straight_flush(cards).1 == 14,
        holds_royal_flush(cards) ==> holds_straight_flush(cards),
        holds_straight_flush(cards) ==> holds_flush(cards),
        forall|s: Suit| 0 <= #[trigger] suit_straight_top(cards, s) <= 14,
{
    assert forall|s: Suit| 0 <= #[trigger] suit_straight_top(cards, s) <= 14 by {
        lemma_best_straight_top(of_suit(cards, s));
    }
    if holds_flush(cards) {
        let s = choose|s: Suit| #[trigger] count_suit(cards, s) >= 5;
    }
    if holds_straight_flush(cards) {
        let s = choose|s: Suit| #[trigger] suit_straight_top(cards, s) != 0;
        assert(count_suit(cards, s) >= 5);
    }
    if holds_royal_flush(cards) {
        let s = choose|s: Suit| #[trigger] suit_straight_top(cards, s) == 14;
    }
}

/// Whether five of the cards or more have the same suit.
pub fn has_flush(cards: &[Card]) -> (found: bool)
    ensures
        found == holds_flush(cards@),
{
    let counts = count_suits(cards);
    proof {
        lemma_flush_hands(cards@);
        assert(counts@[Suit::Hearts.index()] == count_suit(cards@, Suit::Hearts));
        assert(counts@[Suit::Diamonds.index()] == count_suit(cards@, Suit::Diamonds));
        assert(counts@[Suit::Clubs.index()] == count_suit(cards@, Suit::Clubs));
        assert(counts@[Suit::Spades.index()] == count_suit(cards@, Suit::Spades));
    }
    counts[0] >= 5 || counts[1] >= 5 || counts[2] >= 5 || counts[3] >= 5
}

/// The distinct values of the cards of one suit, in ascending order.
pub fn get_sorted_unique_values_by_suit(cards: &[Card], suit: Suit) -> (values: Vec<Value>)
    ensures
        values_of(values@, of_suit(cards@, suit)),
{
    let suited = cards_with_suit(cards, suit);
    get_sorted_unique_values(suited.as_slice())
}

/// The cards of suit `suit` for a listed straight: for each of its values
/// the first card of the suit that has it, and these highest first; the
/// wheel stays as it is listed.
pub(crate) fn get_cards_for_straight_flush(cards: &[Card], suit: Suit, straight_values: &[Value]) -> (out:
    Vec<Card>)
    requires
        forall|k: int|
            0 <= k < straight_values@.len() ==> holds_rank(
                of_suit(cards@, suit),
                (#[trigger] straight_values@[k]).rank(),
            ),
    ensures
        out@ == listed_cards(of_suit(cards@, suit), straight_values@),
{
    let suited = cards_with_suit(cards, suit);
    get_cards_for_straight(suited.as_slice(), straight_values)
}

/// Whether the cards of suit `suit` hold a straight, that suit having five
/// cards or more.
pub fn has_straight_in_suit(cards: &[Card], suit: Suit) -> (found: bool)
    ensures
        found == (suit_straight_top(cards@, suit) != 0),
{
    let suited = cards_with_suit(cards, suit);
    if suited.len() < 5 {
        return false;
    }
    let values = get_sorted_unique_values_by_suit(cards, suit);
    proof {
        lemma_straight_detection(values@, of_suit(cards@, suit));
        lemma_best_straight_top(of_suit(cards@, suit));
    }
    has_consecutive_straight(values.as_slice()) || has_ace_low_straight(values.as_slice())
}

/// Whether the cards of suit `suit` hold ace, king, queen, jack and ten.
pub fn has_royal_flush_in_suit(cards: &[Card], suit: Suit) -> (found: bool)
    ensures
        found == (suit_straight_top(cards@, suit) == 14),
{
    let suited = cards_with_suit(cards, suit);
    let counts = count_values(suited.as_slice());
    proof {
        let of = of_suit(cards@, suit);
        lemma_best_straight_top(of);
        assert(counts@[14] == count_rank(of, 14));
        assert(counts@[13] == count_rank(of, 13));
        assert(counts@[12] == count_rank(of, 12));
        assert(counts@[11] == count_rank(of, 11));
        assert(counts@[10] == count_rank(of, 10));
        if is_straight_top(of, 14) {
            lemma_straight_needs_five(of, 14);
        }
    }
    counts[14] > 0 && counts[13] > 0 && counts[12] > 0 && counts[11] > 0 && counts[10] > 0
}

/// The best straight among the cards of suit `suit`, that suit having five
/// cards or more: its top and its cards from the top down. The top is 0, and
/// no cards are given, where there is none.
pub fn best_straight_in_suit(cards: &[Card], suit: Suit) -> (found: (u8, Vec<Card>))
    ensures
        found.0 == suit_straight_top(cards@, suit),
        found.0 != 0 ==> found.1@ == straight_cards(of_suit(cards@, suit), found.0 as int),
{
    let suited = cards_with_suit(cards, suit);
    if suited.len() < 5 {
        return (0, Vec::new());
    }
    match find_best_straight(suited.as_slice()) {
        Some((top, run)) => (top, run),
        None => (0, Vec::new()),
    }
}

/// Whether the cards of some suit hold a straight.
pub fn has_straight_flush(cards: &[Card]) -> (found: bool)
    ensures
        found == holds_straight_flush(cards@),
{
    proof {
        lemma_flush_hands(cards@);
    }
    has_straight_in_suit(cards, Suit::Hearts) || has_straight_in_suit(cards, Suit::Diamonds)
        || has_straight_in_suit(cards, Suit::Clubs) || has_straight_in_suit(cards, Suit::Spades)
}

/// Whether the cards of some suit hold ace, king, queen, jack and ten.
pub fn has_royal_flush(cards: &[Card]) -> (found: bool)
    ensures
        found == holds_royal_flush(cards@),
{
    proof {
        lemma_flush_hands(cards@);
    }
    if cards.len() < 5 {
        proof {
            lemma_count_bounds(cards@);
        }
        return false;
    }
    has_royal_flush_in_suit(cards, Suit::Hearts) || has_royal_flush_in_suit(cards, Suit::Diamonds)
        || has_royal_flush_in_suit(cards, Suit::Clubs) || has_royal_flush_in_suit(
        cards,
        Suit::Spades,
    )
}

impl Hand {
    /// Whether five cards of the hand or more have the same suit.
    pub fn has_flush(&self) -> (found: bool)
        ensures
            found == holds_flush(self@),
    {
        has_flush(self.as_slice())
    }

    /// Whether the cards of some suit hold a straight. A royal flush is a
    /// straight flush too.
    pub fn has_straight_flush(&self) -> (found: bool)
        ensures
            found == holds_straight_flush(self@),
    {
        has_straight_flush(self.as_slice())
    }

    /// Whether the cards of some suit hold ace, king, queen, jack and ten.
    pub fn has_royal_flush(&self) -> (found: bool)
        ensures
            found == holds_royal_flush(self@),
    {
        has_royal_flush(self.as_slice())
    }

    /// The flush of the hand: the five highest cards of the first suit, in
    /// the order hearts, diamonds, clubs, spades, that five cards or more
    /// have, highest first. It has no kickers. Where the hand holds no flush,
    /// the result holds no cards.
    pub fn get_flush(&self) -> (result: HandResult)
        ensures
            result@ == flush_hand(self@),
            holds_flush(self@) <==> result@.hand_type == HandType::Flush,
            holds_flush(self@) && self@.len() >= 5 ==> result@.cards.len() == 5
                && result@.kickers.len() == 0,
    {
        proof {
            lemma_hand_of_type(self@, HandType::Flush);
        }
        let cards = self.as_slice();
        let counts = count_suits(cards);
        proof {
            lemma_flush_hands(cards@);
            assert(counts@[Suit::Hearts.index()] == count_suit(cards@, Suit::Hearts));
            assert(counts@[Suit::Diamonds.index()] == count_suit(cards@, Suit::Diamonds));
            assert(counts@[Suit::Clubs.index()] == count_suit(cards@, Suit::Clubs));
            assert(counts@[Suit::Spades.index()] == count_suit(cards@, Suit::Spades));
        }
        let suit = if counts[0] >= 5 {
            Suit::Hearts
        } else if counts[1] >= 5 {
            Suit::Diamonds
        } else if counts[2] >= 5 {
            Suit::Clubs
        } else if counts[3] >= 5 {
            Suit::Spades
        } else {
            return not_found();
        };
        let suited = cards_with_suit(cards, suit);
        let flush = highest_cards(suited.as_slice(), 5);
        HandResult::new(HandType::Flush, flush, Vec::new())
    }

    /// The best straight flush of the hand: the five cards, from the top
    /// down, of the straight with the highest top that the cards of one suit
    /// hold; the wheel runs five, four, three, two, ace. Where two suits do
    /// equally well the earlier is taken. Where the ace tops it, it is the
    /// royal flush and the result says so. It has no kickers. Where the hand
    /// holds no straight flush, the result holds no cards.
    pub fn get_straight_flush(&self) -> (result: HandResult)
        ensures
            result@ == straight_flush_hand(self@),
            holds_straight_flush(self@) <==> result@.hand_type == HandType::StraightFlush
                || result@.hand_type == HandType::RoyalFlush,
            holds_royal_flush(self@) <==> result@.hand_type == HandType::RoyalFlush,
            holds_royal_flush(self@) ==> result@ == royal_flush_hand(self@),
            holds_straight_flush(self@) ==> result@.cards.len() == 5 && result@.kickers.len()
                == 0,
    {
        proof {
            lemma_hand_of_type(self@, HandType::StraightFlush);
        }
        let cards = self.as_slice();
        proof {
            lemma_flush_hands(cards@);
        }
        let (hearts, hearts_run) = best_straight_in_suit(cards, Suit::Hearts);
        let (diamonds, diamonds_run) = best_straight_in_suit(cards, Suit::Diamonds);
        let (clubs, clubs_run) = best_straight_in_suit(cards, Suit::Clubs);
        let (spades, spades_run) = best_straight_in_suit(cards, Suit::Spades);
        let (top, run) = if hearts >= diamonds && hearts >= clubs && hearts >= spades {
            (hearts, hearts_run)
        } else if diamonds >= clubs && diamonds >= spades {
            (diamonds, diamonds_run)
        } else if clubs >= spades {
            (clubs, clubs_run)
        } else {
            (spades, spades_run)
        };
        if top == 0 {
            return not_found();
        }
        let hand_type = if top == 14 {
            HandType::RoyalFlush
        } else {
            HandType::StraightFlush
        };
        HandResult::new(hand_type, run, Vec::new())
    }

    /// The royal flush of the hand: ace, king, queen, jack and ten, in that
    /// order, of the first suit, in the order hearts, diamonds, clubs,
    /// spades, that holds them. It has no kickers. Where the hand holds no
    /// royal flush, the result holds no cards.
    pub fn get_royal_flush(&self) -> (result: HandResult)
        ensures
            result@ == royal_flush_hand(self@),
            holds_royal_flush(self@) <==> result@.hand_type == HandType::RoyalFlush,
            holds_royal_flush(self@) && self@.len() >= 5 ==> result@.cards.len() == 5
                && result@.kickers.len() == 0,
    {
        proof {
            lemma_hand_of_type(self@, HandType::RoyalFlush);
        }
        let cards = self.as_slice();
        proof {
            lemma_flush_hands(cards@);
        }
        let suit = if has_royal_flush_in_suit(cards, Suit::Hearts) {
            Suit::Hearts
        } else if has_royal_flush_in_suit(cards, Suit::Diamonds) {
            Suit::Diamonds
        } else if has_royal_flush_in_suit(cards, Suit::Clubs) {
            Suit::Clubs
        } else if has_royal_flush_in_suit(cards, Suit::Spades) {
            Suit::Spades
        } else {
            return not_found();
        };
        let mut royal_values: Vec<Value> = Vec::new();
        royal_values.push(Value::Ten);
        royal_values.push(Value::Jack);
        royal_values.push(Value::Queen);
        royal_values.push(Value::King);
        royal_values.push(Value::Ace);
        proof {
            assert(royal_values@ =~= listed_values(14));
            lemma_best_straight_top(of_suit(cards@, suit));
            lemma_listed_cards(of_suit(cards@, suit), 14);
        }
        let royal_flush = get_cards_for_straight_flush(cards, suit, royal_values.as_slice());
        HandResult::new(HandType::RoyalFlush, royal_flush, Vec::new())
    }
}

} // verus!
