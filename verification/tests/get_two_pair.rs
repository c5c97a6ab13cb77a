#![allow(unused_imports)]

use poker_hands::card::{Card, Suit, Value};
use poker_hands::hand::hand_types::HandType;
use poker_hands::hand::{get_best_hand, Hand, PokerHand};

#[test]
fn test_get_two_pair() {
    let cards = vec![
        Card::new(poker_hands::card::Suit::Hearts, poker_hands::card::Value::Two),
        Card::new(poker_hands::card::Suit::Diamonds, poker_hands::card::Value::Two),
        Card::new(poker_hands::card::Suit::Clubs, poker_hands::card::Value::Three),
        Card::new(poker_hands::card::Suit::Spades, poker_hands::card::Value::Three),
        Card::new(poker_hands::card::Suit::Hearts, poker_hands::card::Value::Four),
    ];
    let hand = Hand::new(cards);

    let two_pair = hand.get_two_pair();
    assert_eq!(two_pair.len(), 4);
    assert_eq!(two_pair.cards()[0].value(), two_pair.cards()[1].value());
    assert_eq!(two_pair.cards()[2].value(), two_pair.cards()[3].value());
    assert_ne!(two_pair.cards()[0].value(), two_pair.cards()[2].value());
}

#[test]
fn test_get_two_pair_empty() {
    let cards = vec![
        Card::new(poker_hands::card::Suit::Hearts, poker_hands::card::Value::Two),
        Card::new(poker_hands::card::Suit::Diamonds, poker_hands::card::Value::Two),
        Card::new(poker_hands::card::Suit::Clubs, poker_hands::card::Value::Three),
        Card::new(poker_hands::card::Suit::Spades, poker_hands::card::Value::Four),
        Card::new(poker_hands::card::Suit::Hearts, poker_hands::card::Value::Five),
    ];
    let hand = Hand::new(cards);

    let two_pair = hand.get_two_pair();
    assert!(two_pair.is_empty());
}
