#![allow(unused_imports)]

use poker_hands::card::{Card, Suit, Value};
use poker_hands::hand::hand_types::HandType;
use poker_hands::hand::{get_best_hand, Hand, PokerHand};

#[test]
fn test_has_full_house() {
    let hand = vec![
        Card::new(poker_hands::card::Suit::Hearts, poker_hands::card::Value::Ten),
        Card::new(poker_hands::card::Suit::Diamonds, poker_hands::card::Value::Ten),
        Card::new(poker_hands::card::Suit::Clubs, poker_hands::card::Value::Ten),
        Card::new(poker_hands::card::Suit::Hearts, poker_hands::card::Value::Jack),
        Card::new(poker_hands::card::Suit::Diamonds, poker_hands::card::Value::Jack),
    ];

    let hand_obj = Hand::new(hand);
    assert!(hand_obj.has_full_house());
}

#[test]
fn test_does_not_have_full_house() {
    let hand = vec![
        Card::new(poker_hands::card::Suit::Hearts, poker_hands::card::Value::Ten),
        Card::new(poker_hands::card::Suit::Diamonds, poker_hands::card::Value::Ten),
        Card::new(poker_hands::card::Suit::Clubs, poker_hands::card::Value::Ten),
        Card::new(poker_hands::card::Suit::Hearts, poker_hands::card::Value::Jack),
        Card::new(poker_hands::card::Suit::Diamonds, poker_hands::card::Value::Queen),
    ];

    let hand_obj = Hand::new(hand);
    assert!(!hand_obj.has_full_house());
}
