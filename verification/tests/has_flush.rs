#![allow(unused_imports)]

use poker_hands::card::{Card, Suit, Value};
use poker_hands::hand::hand_types::HandType;
use poker_hands::hand::{get_best_hand, Hand, PokerHand};

#[test]
fn test_has_flush() {
    // Create a hand with a flush
    let cards = vec![
        Card::new(poker_hands::card::Suit::Hearts, poker_hands::card::Value::Ace),
        Card::new(poker_hands::card::Suit::Hearts, poker_hands::card::Value::King),
        Card::new(poker_hands::card::Suit::Hearts, poker_hands::card::Value::Queen),
        Card::new(poker_hands::card::Suit::Hearts, poker_hands::card::Value::Jack),
        Card::new(poker_hands::card::Suit::Hearts, poker_hands::card::Value::Ten),
        Card::new(poker_hands::card::Suit::Spades, poker_hands::card::Value::Nine),
        Card::new(poker_hands::card::Suit::Spades, poker_hands::card::Value::Eight),
    ];

    let hand = Hand::new(cards);
    assert!(hand.has_flush());

    // Create a hand without a flush
    let cards = vec![
        Card::new(poker_hands::card::Suit::Hearts, poker_hands::card::Value::Ace),
        Card::new(poker_hands::card::Suit::Diamonds, poker_hands::card::Value::King),
        Card::new(poker_hands::card::Suit::Clubs, poker_hands::card::Value::Queen),
        Card::new(poker_hands::card::Suit::Spades, poker_hands::card::Value::Jack),
        Card::new(poker_hands::card::Suit::Hearts, poker_hands::card::Value::Ten),
        Card::new(poker_hands::card::Suit::Spades, poker_hands::card::Value::Nine),
        Card::new(poker_hands::card::Suit::Diamonds, poker_hands::card::Value::Eight),
    ];

    let hand = Hand::new(cards);
    assert!(!hand.has_flush());
}
