#![allow(unused_imports)]

use poker_hands::card::{Card, Suit, Value};
use poker_hands::hand::hand_types::HandType;
use poker_hands::hand::{get_best_hand, Hand, PokerHand};

#[test]
fn test_get_flush() {
    // Create a hand with a flush
    let cards = vec![
        Card::new(poker_hands::card::Suit::Hearts, poker_hands::card::Value::Ace),
        Card::new(poker_hands::card::Suit::Hearts, poker_hands::card::Value::King),
        Card::new(poker_hands::card::Suit::Hearts, poker_hands::card::Value::Queen),
        Card::new(poker_hands::card::Suit::Hearts, poker_hands::card::Value::Jack),
        Card::new(poker_hands::card::Suit::Hearts, poker_hands::card::Value::Ten),
        Card::new(poker_hands::card::Suit::Spades, poker_hands::card::Value::Nine),
        Card::new(poker_hands::card::Suit::Spades, poker_hands::card::Value::Eight),
    ];

    let hand = Hand::new(cards);
    let flush = hand.get_flush();

    assert_eq!(flush.len(), 5);
    assert_eq!(flush.cards()[0].value(), poker_hands::card::Value::Ace);
    assert_eq!(flush.cards()[1].value(), poker_hands::card::Value::King);
    assert_eq!(flush.cards()[2].value(), poker_hands::card::Value::Queen);
    assert_eq!(flush.cards()[3].value(), poker_hands::card::Value::Jack);
    assert_eq!(flush.cards()[4].value(), poker_hands::card::Value::Ten);

    // Create a hand without a flush
    let cards = vec![
        Card::new(poker_hands::card::Suit::Hearts, poker_hands::card::Value::Ace),
        Card::new(poker_hands::card::Suit::Diamonds, poker_hands::card::Value::King),
        Card::new(poker_hands::card::Suit::Clubs, poker_hands::card::Value::Queen),
        Card::new(poker_hands::card::Suit::Spades, poker_hands::card::Value::Jack),
        Card::new(poker_hands::card::Suit::Hearts, poker_hands::card::Value::Ten),
        Card::new(poker_hands::card::Suit::Spades, poker_hands::card::Value::Nine),
        Card::new(poker_hands::card::Suit::Diamonds, poker_hands::card::Value::Eight),
    ];

    let hand = Hand::new(cards);
    let flush = hand.get_flush();

    assert!(flush.is_empty());
}
