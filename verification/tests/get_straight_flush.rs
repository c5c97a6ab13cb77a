#![allow(unused_imports)]

use poker_hands::card::{Card, Suit, Value};
use poker_hands::hand::hand_types::HandType;
use poker_hands::hand::{get_best_hand, Hand, PokerHand};

#[test]
fn test_get_straight_flush() {
    // Test with a straight flush
    let cards = vec![
        Card::new(Suit::Hearts, Value::Two),
        Card::new(Suit::Hearts, Value::Three),
        Card::new(Suit::Hearts, Value::Four),
        Card::new(Suit::Hearts, Value::Five),
        Card::new(Suit::Hearts, Value::Six),
        // Add some other cards
        Card::new(Suit::Diamonds, Value::Seven),
        Card::new(Suit::Clubs, Value::Eight),
    ];

    let hand = Hand::new(cards);
    let straight_flush = hand.get_straight_flush();
    assert_eq!(straight_flush.len(), 5);
    assert_eq!(straight_flush.cards()[0].suit(), Suit::Hearts);
    assert_eq!(straight_flush.cards()[0].value(), Value::Six);
    assert_eq!(straight_flush.cards()[1].value(), Value::Five);
    assert_eq!(straight_flush.cards()[2].value(), Value::Four);
    assert_eq!(straight_flush.cards()[3].value(), Value::Three);
    assert_eq!(straight_flush.cards()[4].value(), Value::Two);

    // Test without a straight flush
    let cards = vec![
        Card::new(Suit::Hearts, Value::Two),
        Card::new(Suit::Hearts, Value::Three),
        Card::new(Suit::Hearts, Value::Four),
        Card::new(Suit::Hearts, Value::Five),
        Card::new(Suit::Diamonds, Value::Six),
        Card::new(Suit::Clubs, Value::Seven),
    ];

    let hand = Hand::new(cards);
    let straight_flush = hand.get_straight_flush();
    assert!(straight_flush.is_empty());

    // Test with a straight but not a flush
    let cards = vec![
        Card::new(Suit::Hearts, Value::Two),
        Card::new(Suit::Diamonds, Value::Three),
        Card::new(Suit::Clubs, Value::Four),
        Card::new(Suit::Spades, Value::Five),
        Card::new(Suit::Hearts, Value::Six),
        Card::new(Suit::Clubs, Value::Seven),
    ];

    let hand = Hand::new(cards);
    let straight_flush = hand.get_straight_flush();
    assert!(straight_flush.is_empty());

    // Test with a flush but not a straight
    let cards = vec![
        Card::new(Suit::Hearts, Value::Two),
        Card::new(Suit::Hearts, Value::Four),
        Card::new(Suit::Hearts, Value::Six),
        Card::new(Suit::Hearts, Value::Eight),
        Card::new(Suit::Hearts, Value::Ten),
        Card::new(Suit::Clubs, Value::Seven),
    ];

    let hand = Hand::new(cards);
    let straight_flush = hand.get_straight_flush();
    assert!(straight_flush.is_empty());
}
