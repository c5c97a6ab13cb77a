#![allow(unused_imports)]

use poker_hands::card::{Card, Suit, Value};
use poker_hands::hand::hand_types::HandType;
use poker_hands::hand::{get_best_hand, Hand, PokerHand};

#[test]
fn test_get_three_of_a_kind() {
    let hand = vec![
        Card::new(poker_hands::card::Suit::Hearts, poker_hands::card::Value::Ten),
        Card::new(poker_hands::card::Suit::Diamonds, poker_hands::card::Value::Ten),
        Card::new(poker_hands::card::Suit::Clubs, poker_hands::card::Value::Ten),
        Card::new(poker_hands::card::Suit::Hearts, poker_hands::card::Value::Jack),
        Card::new(poker_hands::card::Suit::Diamonds, poker_hands::card::Value::Queen),
    ];

    let hand_obj = Hand::new(hand);
    let three_of_a_kind = hand_obj.get_three_of_a_kind();

    assert_eq!(three_of_a_kind.len(), 3);
    for card in &three_of_a_kind.cards() {
        assert_eq!(card.value(), poker_hands::card::Value::Ten);
    }
}

#[test]
fn test_get_three_of_a_kind_not_found() {
    let hand = vec![
        Card::new(poker_hands::card::Suit::Hearts, poker_hands::card::Value::Ten),
        Card::new(poker_hands::card::Suit::Diamonds, poker_hands::card::Value::Jack),
        Card::new(poker_hands::card::Suit::Clubs, poker_hands::card::Value::Queen),
        Card::new(poker_hands::card::Suit::Hearts, poker_hands::card::Value::King),
        Card::new(poker_hands::card::Suit::Diamonds, poker_hands::card::Value::Ace),
    ];

    let hand_obj = Hand::new(hand);
    let three_of_a_kind = hand_obj.get_three_of_a_kind();

    assert_eq!(three_of_a_kind.len(), 0);
}
