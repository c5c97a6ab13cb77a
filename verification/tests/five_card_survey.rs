use poker_hands::card::{Card, Suit, Value};
use poker_hands::hand::{get_best_hand, PokerHand};

fn deck() -> Vec<Card> {
    let mut deck = Vec::new();
    for suit in [Suit::Hearts, Suit::Diamonds, Suit::Clubs, Suit::Spades] {
        for rank in 2..=14u8 {
            deck.push(Card::new(suit, Value::from_u8(rank).unwrap()));
        }
    }
    deck
}

/// The category of five cards, told from their ranks in descending order and
/// from their suits.
fn expected(five: &[Card; 5]) -> PokerHand {
    let mut ranks: Vec<u8> = five.iter().map(|card| card.value().to_u8()).collect();
    ranks.sort_unstable_by(|a, b| b.cmp(a));
    let flush = five.iter().all(|card| card.suit() == five[0].suit());
    let run = (0..4).all(|i| ranks[i] == ranks[i + 1] + 1);
    let wheel = ranks == [14, 5, 4, 3, 2];
    let mut groups: Vec<usize> = Vec::new();
    let mut start = 0;
    for i in 1..=5 {
        if i == 5 || ranks[i] != ranks[start] {
            groups.push(i - start);
            start = i;
        }
    }
    groups.sort_unstable_by(|a, b| b.cmp(a));
    if flush && run && ranks[0] == 14 {
        PokerHand::RoyalFlush
    } else if flush && (run || wheel) {
        PokerHand::StraightFlush
    } else if groups[0] >= 4 {
        PokerHand::FourOfAKind
    } else if groups[0] == 3 && groups[1] == 2 {
        PokerHand::FullHouse
    } else if flush {
        PokerHand::Flush
    } else if run || wheel {
        PokerHand::Straight
    } else if groups[0] == 3 {
        PokerHand::ThreeOfAKind
    } else if groups[0] == 2 && groups[1] == 2 {
        PokerHand::TwoPair
    } else if groups[0] == 2 {
        PokerHand::OnePair
    } else {
        PokerHand::HighCard
    }
}

/// Goes through the hands of five cards of the deck whose lowest card, in the
/// order of the deck, has a place from `from` up to `to`, and counts them by
/// category.
fn survey(from: usize, to: usize) -> [u32; 11] {
    let deck = deck();
    let mut seen = [0u32; 11];
    for a in from..to {
        for b in a + 1..52 {
            for c in b + 1..52 {
                for d in c + 1..52 {
                    for e in d + 1..52 {
                        let five = [deck[e], deck[b], deck[d], deck[a], deck[c]];
                        let found = get_best_hand(&five);
                        assert_eq!(found, expected(&five));
                        seen[found.ranking() as usize] += 1;
                    }
                }
            }
        }
    }
    seen
}

#[test]
fn every_hand_of_five_cards_of_the_deck() {
    let seen = survey(0, 52);
    assert_eq!(seen[PokerHand::RoyalFlush.ranking() as usize], 4);
    assert_eq!(seen[PokerHand::StraightFlush.ranking() as usize], 36);
    assert_eq!(seen[PokerHand::FourOfAKind.ranking() as usize], 624);
    assert_eq!(seen[PokerHand::FullHouse.ranking() as usize], 3_744);
    assert_eq!(seen[PokerHand::Flush.ranking() as usize], 5_108);
    assert_eq!(seen[PokerHand::Straight.ranking() as usize], 10_200);
    assert_eq!(seen[PokerHand::ThreeOfAKind.ranking() as usize], 54_912);
    assert_eq!(seen[PokerHand::TwoPair.ranking() as usize], 123_552);
    assert_eq!(seen[PokerHand::OnePair.ranking() as usize], 1_098_240);
    assert_eq!(seen[PokerHand::HighCard.ranking() as usize], 1_302_540);
    assert_eq!(seen.iter().sum::<u32>(), 2_598_960);
}
