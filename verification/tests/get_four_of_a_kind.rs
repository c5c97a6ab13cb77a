#![allow(unused_imports)]

use poker_hands::card::{Card, Suit, Value};
use poker_hands::hand::hand_types::HandType;
use poker_hands::hand::{get_best_hand, Hand, PokerHand};

#[test]
fn test_get_four_of_a_kind() {
    let cards = vec![
        Card::new(Suit::Hearts, Value::Two),
        Card::new(Suit::Diamonds, Value::Two),
        Card::new(Suit::Clubs, Value::Two),
        Card::new(Suit::Spades, Value::Two),
        Card::new(Suit::Hearts, Value::Ace),
        Card::new(Suit::Diamonds, Value::Ace),
    ];

    let hand = Hand::new(cards);
    let four_of_a_kind = hand.get_four_of_a_kind();

    assert_eq!(four_of_a_kind.len(), 4);
    for card in &four_of_a_kind.cards() {
        assert_eq!(card.value(), Value::Two);
    }
}

#[test]
fn test_get_four_of_a_kind_not_found() {
    let cards = vec![
        Card::new(Suit::Hearts, Value::Two),
        Card::new(Suit::Diamonds, Value::Two),
        Card::new(Suit::Clubs, Value::Two),
        Card::new(Suit::Hearts, Value::Ace),
        Card::new(Suit::Diamonds, Value::Ace),
        Card::new(Suit::Clubs, Value::Ace),
    ];

    let hand = Hand::new(cards);
    let four_of_a_kind = hand.get_four_of_a_kind();

    assert!(four_of_a_kind.is_empty());
}
