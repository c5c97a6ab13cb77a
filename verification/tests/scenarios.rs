use poker_hands::card::{Card, Suit, Value};
use poker_hands::hand::hand_types::HandType;
use poker_hands::hand::{get_best_hand, Hand, PokerHand};

fn card(text: &str) -> Card {
    Card::from_str(text).unwrap()
}

fn cards(texts: &[&str]) -> Vec<Card> {
    texts.iter().map(|text| card(text)).collect()
}

fn hand(texts: &[&str]) -> Hand {
    Hand::new(cards(texts))
}

fn texts(cards: &[Card]) -> Vec<String> {
    cards.iter().map(|card| card.to_string()).collect()
}

#[test]
fn wheel_in_one_suit_is_a_straight_flush_led_by_the_five() {
    let result = hand(&["Ah", "2h", "3h", "4h", "5h"]).get_best_hand();
    assert_eq!(result.hand_type(), HandType::StraightFlush);
    assert_ne!(result.hand_type(), HandType::RoyalFlush);
    assert_eq!(texts(&result.cards()), vec!["5h", "4h", "3h", "2h", "Ah"]);
    assert!(result.kickers().is_empty());
}

#[test]
fn wheel_in_mixed_suits_is_a_straight_led_by_the_five() {
    let result = hand(&["Ah", "2d", "3c", "4s", "5h"]).get_best_hand();
    assert_eq!(result.hand_type(), HandType::Straight);
    assert_eq!(texts(&result.cards()), vec!["5h", "4s", "3c", "2d", "Ah"]);
    assert!(result.kickers().is_empty());
}

#[test]
fn king_ace_two_three_four_is_no_straight() {
    let wrapped = hand(&["Kh", "As", "2d", "3c", "4h"]);
    assert!(!wrapped.has_straight());
    assert!(wrapped.get_straight().is_empty());
    let result = wrapped.get_best_hand();
    assert_eq!(result.hand_type(), HandType::HighCard);
    assert_eq!(texts(&result.cards()), vec!["As", "Kh", "4h", "3c", "2d"]);
    assert!(result.kickers().is_empty());
    assert_eq!(get_best_hand(&cards(&["Kh", "As", "2d", "3c", "4h"])), PokerHand::HighCard);
}

#[test]
fn wrap_around_with_a_pair_falls_back_to_the_pair() {
    let result = hand(&["Kh", "As", "2d", "3c", "4h", "4d"]).get_best_hand();
    assert_eq!(result.hand_type(), HandType::Pair);
    assert_eq!(texts(&result.cards()), vec!["4h", "4d"]);
    assert_eq!(texts(&result.kickers()), vec!["As", "Kh", "3c"]);
}

#[test]
fn full_house_goes_before_a_flush_in_seven_cards() {
    // A card may be given twice; only so can seven cards hold both.
    let both = hand(&["7h", "7h", "7h", "Kh", "Kh", "2c", "3d"]);
    assert!(both.has_flush());
    assert!(both.has_full_house());
    let result = both.get_best_hand();
    assert_eq!(result.hand_type(), HandType::FullHouse);
    assert_eq!(texts(&result.cards()), vec!["7h", "7h", "7h", "Kh", "Kh"]);
    assert!(result.kickers().is_empty());
}

#[test]
fn four_of_a_kind_goes_before_a_flush() {
    let both = hand(&["9h", "9h", "9h", "9h", "Kh", "2c", "3d"]);
    assert!(both.has_flush());
    let result = both.get_best_hand();
    assert_eq!(result.hand_type(), HandType::FourOfAKind);
    assert_eq!(texts(&result.cards()), vec!["9h", "9h", "9h", "9h"]);
    assert_eq!(texts(&result.kickers()), vec!["Kh"]);
}

#[test]
fn royal_flush_is_listed_from_the_ace_down() {
    let result = hand(&["Ah", "Kh", "Qh", "Jh", "Th"]).get_best_hand();
    assert_eq!(result.hand_type(), HandType::RoyalFlush);
    assert_eq!(texts(&result.cards()), vec!["Ah", "Kh", "Qh", "Jh", "Th"]);
    assert!(result.kickers().is_empty());
}

#[test]
fn royal_flush_given_in_another_order_is_listed_from_the_ace_down() {
    let result = hand(&["Th", "Qh", "2c", "Ah", "Jh", "Kh", "Ad"]).get_best_hand();
    assert_eq!(result.hand_type(), HandType::RoyalFlush);
    assert_eq!(texts(&result.cards()), vec!["Ah", "Kh", "Qh", "Jh", "Th"]);
    assert!(result.kickers().is_empty());
}

#[test]
fn sevens_full_of_kings() {
    let result = hand(&["7c", "7h", "7d", "Ks", "Kh"]).get_best_hand();
    assert_eq!(result.hand_type(), HandType::FullHouse);
    let mut found = texts(&result.cards());
    assert_eq!(found, vec!["7c", "7h", "7d", "Ks", "Kh"]);
    found.sort();
    let mut expected = vec!["7c", "7h", "7d", "Ks", "Kh"];
    expected.sort();
    assert_eq!(found, expected);
    assert!(result.kickers().is_empty());
}

#[test]
fn ten_high() {
    let result = hand(&["2h", "4d", "6c", "8s", "Tc"]).get_best_hand();
    assert_eq!(result.hand_type(), HandType::HighCard);
    assert_eq!(texts(&result.cards()), vec!["Tc", "8s", "6c", "4d", "2h"]);
    assert!(result.kickers().is_empty());
}

#[test]
fn evaluating_twice_gives_the_same_result() {
    let inputs: Vec<Vec<&str>> = vec![
        vec!["Ah", "Kh", "Qh", "Jh", "Th"],
        vec!["2h", "4d", "6c", "8s", "Tc"],
        vec!["7c", "7h", "7d", "Ks", "Kh", "2d", "2s"],
        vec!["9c", "9h", "4d", "4s", "Kh", "Kd", "2s"],
    ];
    for input in inputs {
        let given = hand(&input);
        let first = given.get_best_hand();
        let second = given.get_best_hand();
        assert_eq!(first.hand_type(), second.hand_type());
        assert_eq!(first.cards(), second.cards());
        assert_eq!(first.kickers(), second.kickers());
        assert_eq!(given.cards(), cards(&input));
    }
}

#[test]
fn six_high_straight_beats_the_wheel_in_six_cards() {
    let result = hand(&["Ah", "2d", "3c", "4s", "5h", "6d"]).get_best_hand();
    assert_eq!(result.hand_type(), HandType::Straight);
    assert_eq!(texts(&result.cards()), vec!["6d", "5h", "4s", "3c", "2d"]);
}

#[test]
fn straight_takes_the_first_card_of_each_rank() {
    let result = hand(&["9c", "8d", "8h", "7s", "6h", "5d", "5c"]).get_straight();
    assert_eq!(result.hand_type(), HandType::Straight);
    assert_eq!(texts(&result.cards()), vec!["9c", "8d", "7s", "6h", "5d"]);
    assert!(result.kickers().is_empty());
}

#[test]
fn straight_flush_is_looked_for_suit_by_suit() {
    // A straight and a flush that do not share five cards.
    let apart = hand(&["2h", "3h", "4h", "5h", "6d", "9h", "Kc"]);
    assert!(apart.has_straight());
    assert!(apart.has_flush());
    assert!(!apart.has_straight_flush());
    let result = apart.get_best_hand();
    assert_eq!(result.hand_type(), HandType::Flush);
    assert_eq!(texts(&result.cards()), vec!["9h", "5h", "4h", "3h", "2h"]);
    assert!(result.kickers().is_empty());
}

#[test]
fn best_straight_flush_of_two_suits() {
    let two = hand(&["2h", "3h", "4h", "5h", "6h", "5d", "6d", "7d", "8d", "9d"]);
    let result = two.get_straight_flush();
    assert_eq!(result.hand_type(), HandType::StraightFlush);
    assert_eq!(texts(&result.cards()), vec!["9d", "8d", "7d", "6d", "5d"]);
}

#[test]
fn flush_takes_the_five_highest_of_the_suit() {
    let result = hand(&["2s", "Ks", "9s", "4s", "As", "7s", "Qd"]).get_best_hand();
    assert_eq!(result.hand_type(), HandType::Flush);
    assert_eq!(texts(&result.cards()), vec!["As", "Ks", "9s", "7s", "4s"]);
    assert!(result.kickers().is_empty());
}

#[test]
fn two_pair_takes_the_two_highest_pairs_and_the_best_kicker() {
    let result = hand(&["4c", "4d", "9h", "9s", "Kc", "Kd", "As"]).get_best_hand();
    assert_eq!(result.hand_type(), HandType::TwoPair);
    assert_eq!(texts(&result.cards()), vec!["Kc", "Kd", "9h", "9s"]);
    assert_eq!(texts(&result.kickers()), vec!["As"]);
}

#[test]
fn full_house_takes_the_higher_of_two_triples() {
    let result = hand(&["4c", "4d", "4h", "9s", "9c", "9d", "As"]).get_best_hand();
    assert_eq!(result.hand_type(), HandType::FullHouse);
    assert_eq!(texts(&result.cards()), vec!["9s", "9c", "9d", "4c", "4d"]);
    assert!(result.kickers().is_empty());
}

#[test]
fn three_of_a_kind_has_two_kickers() {
    let result = hand(&["4c", "Jd", "4h", "9s", "4s", "2d", "As"]).get_best_hand();
    assert_eq!(result.hand_type(), HandType::ThreeOfAKind);
    assert_eq!(texts(&result.cards()), vec!["4c", "4h", "4s"]);
    assert_eq!(texts(&result.kickers()), vec!["As", "Jd"]);
}

#[test]
fn pair_has_three_kickers_and_equal_ranks_keep_their_order() {
    let result = hand(&["Qc", "7d", "Qh", "9s", "7s", "2d", "3s"]).get_pair();
    assert_eq!(result.hand_type(), HandType::Pair);
    assert_eq!(texts(&result.cards()), vec!["Qc", "Qh"]);
    assert_eq!(texts(&result.kickers()), vec!["9s", "7d", "7s"]);
}

#[test]
fn result_counts_five_cards_from_five_to_seven() {
    let inputs: Vec<Vec<&str>> = vec![
        vec!["Ah", "Kh", "Qh", "Jh", "Th"],
        vec!["2h", "4d", "6c", "8s", "Tc", "Qd"],
        vec!["7c", "7h", "7d", "Ks", "Kh", "2d", "2s"],
        vec!["9c", "9h", "4d", "4s", "Kh", "Kd", "2s"],
        vec!["9c", "9h", "9d", "9s", "Kh", "Kd", "2s"],
        vec!["9c", "9h", "3d", "5s", "Kh", "Qd", "2s"],
        vec!["9c", "9h", "9d", "5s", "Kh", "Qd", "2s"],
    ];
    for input in inputs {
        let result = hand(&input).get_best_hand();
        assert_eq!(result.cards().len() + result.kickers().len(), 5);
        assert_eq!(result.len(), result.cards().len());
    }
}

#[test]
fn kickers_by_category() {
    let given = hand(&["Qc", "7d", "Qh", "9s", "7s", "2d", "3s"]);
    assert_eq!(texts(&given.get_kickers(HandType::Pair)), vec!["9s", "7d", "7s"]);
    assert_eq!(texts(&given.get_kickers(HandType::TwoPair)), vec!["9s"]);
    assert!(given.get_kickers(HandType::ThreeOfAKind).is_empty());
    assert!(given.get_kickers(HandType::FourOfAKind).is_empty());
    assert!(given.get_kickers(HandType::HighCard).is_empty());
    assert!(given.get_kickers(HandType::Flush).is_empty());
    assert!(given.get_kickers(HandType::Straight).is_empty());
    assert!(given.get_kickers(HandType::FullHouse).is_empty());
    assert!(given.get_kickers(HandType::StraightFlush).is_empty());
    assert!(given.get_kickers(HandType::RoyalFlush).is_empty());
}

#[test]
fn a_card_given_twice_is_tolerated() {
    let result = hand(&["Ah", "Ah", "Kd", "Qc", "Js"]).get_best_hand();
    assert_eq!(result.hand_type(), HandType::Pair);
    assert_eq!(texts(&result.cards()), vec!["Ah", "Ah"]);
    assert_eq!(texts(&result.kickers()), vec!["Kd", "Qc", "Js"]);
}

#[test]
fn category_names_agree() {
    let inputs: Vec<(Vec<&str>, HandType, PokerHand)> = vec![
        (vec!["Ah", "Kh", "Qh", "Jh", "Th"], HandType::RoyalFlush, PokerHand::RoyalFlush),
        (vec!["9h", "Kh", "Qh", "Jh", "Th"], HandType::StraightFlush, PokerHand::StraightFlush),
        (vec!["9h", "9d", "9c", "9s", "Th"], HandType::FourOfAKind, PokerHand::FourOfAKind),
        (vec!["9h", "9d", "9c", "Ts", "Th"], HandType::FullHouse, PokerHand::FullHouse),
        (vec!["2h", "Kh", "Qh", "Jh", "Th"], HandType::Flush, PokerHand::Flush),
        (vec!["9d", "Kh", "Qh", "Jh", "Th"], HandType::Straight, PokerHand::Straight),
        (vec!["9h", "9d", "9c", "2s", "Th"], HandType::ThreeOfAKind, PokerHand::ThreeOfAKind),
        (vec!["9h", "9d", "2c", "Ts", "Th"], HandType::TwoPair, PokerHand::TwoPair),
        (vec!["9h", "9d", "2c", "3s", "Th"], HandType::Pair, PokerHand::OnePair),
        (vec!["9h", "7d", "2c", "3s", "Th"], HandType::HighCard, PokerHand::HighCard),
    ];
    for (input, hand_type, poker_hand) in inputs {
        assert_eq!(hand(&input).get_best_hand().hand_type(), hand_type);
        assert_eq!(get_best_hand(&cards(&input)), poker_hand);
        assert_eq!(PokerHand::from_hand_type(hand_type), poker_hand);
        assert_eq!(poker_hand.ranking(), hand_type.ranking());
    }
    assert_eq!(Card::new(Suit::Hearts, Value::Ace), card("Ah"));
}

#[test]
fn straight_flush_that_the_ace_tops_is_reported_as_a_royal_flush() {
    let royal = hand(&["Ts", "Js", "Qs", "Ks", "As", "9s", "2d"]);
    assert!(royal.has_straight_flush());
    assert!(royal.has_royal_flush());
    let result = royal.get_straight_flush();
    assert_eq!(result.hand_type(), HandType::RoyalFlush);
    assert_eq!(texts(&result.cards()), vec!["As", "Ks", "Qs", "Js", "Ts"]);
    assert!(result.kickers().is_empty());
    let same = royal.get_royal_flush();
    assert_eq!(same.hand_type(), HandType::RoyalFlush);
    assert_eq!(same.cards(), result.cards());
    let lower = hand(&["Ts", "Js", "Qs", "Ks", "9s", "Ad", "2d"]).get_straight_flush();
    assert_eq!(lower.hand_type(), HandType::StraightFlush);
    assert_eq!(texts(&lower.cards()), vec!["Ks", "Qs", "Js", "Ts", "9s"]);
    assert!(hand(&["Ts", "Js", "Qs", "Ks", "9s", "Ad", "2d"]).get_royal_flush().is_empty());
}

#[test]
fn the_order_of_the_cards_does_not_change_the_category() {
    let inputs: Vec<Vec<&str>> = vec![
        vec!["Ah", "Kh", "Qh", "Jh", "Th", "2c", "2d"],
        vec!["5h", "4h", "3h", "2h", "Ah", "Ad", "As"],
        vec!["7c", "7h", "7d", "Ks", "Kh", "2d", "2s"],
        vec!["9c", "9h", "4d", "4s", "Kh", "Kd", "2s"],
        vec!["2h", "4d", "6c", "8s", "Tc"],
        vec!["2s", "Ks", "9s", "4s", "As", "7s", "Qd"],
    ];
    for input in inputs {
        let expected = hand(&input).get_best_hand().hand_type();
        let mut turned = cards(&input);
        for _ in 0..turned.len() {
            turned.rotate_left(1);
            assert_eq!(Hand::new(turned.clone()).get_best_hand().hand_type(), expected);
            let mut back = turned.clone();
            back.reverse();
            assert_eq!(Hand::new(back.clone()).get_best_hand().hand_type(), expected);
            assert_eq!(get_best_hand(&back), PokerHand::from_hand_type(expected));
        }
    }
}
