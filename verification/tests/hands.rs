use poker_hands::card::Card;
use poker_hands::category::HandCategory;
use poker_hands::error::HandError;
use poker_hands::arrange::{separate_key_cards_and_kickers, sort_cards, sort_hand};
use poker_hands::hand::Hand;
use poker_hands::score::{
    evaluate_hand, has_room_for_scores, set_hand_value_to_cards, MAX_CARD_SCORE,
};
use poker_hands::text::{pad_to_width, ToStringCustom};

fn cards_from(tokens: &[&str]) -> Vec<Card> {
    tokens
        .iter()
        .map(|token| {
            let (face, suit) = token.split_at(token.len() - 1);
            Card::new(face, suit)
        })
        .collect()
}

fn names(cards: &[Card]) -> Vec<String> {
    cards.iter().map(|card| card.to_string()).collect()
}

fn scores(cards: &[Card]) -> Vec<u64> {
    cards.iter().map(|card| card.get_hand_value()).collect()
}

#[test]
fn a_hand_needs_exactly_five_cards() {
    for tokens in [
        &[][..],
        &["AS"][..],
        &["AS", "KS", "QS", "JS"][..],
        &["AS", "KS", "QS", "JS", "10S", "9S"][..],
    ] {
        assert_eq!(Hand::new(cards_from(tokens)).unwrap_err(), HandError::InvalidHandSize);
    }
}

#[test]
fn a_hand_needs_known_symbols() {
    let mut given = cards_from(&["AS", "KS", "QS", "JS"]);
    given.push(Card::new("1", "S"));
    assert_eq!(Hand::new(given).unwrap_err(), HandError::InvalidCard);
    let mut given = cards_from(&["AS", "KS", "QS", "JS"]);
    given.insert(0, Card::new("10", "X"));
    assert_eq!(Hand::new(given).unwrap_err(), HandError::InvalidCard);
}

#[test]
fn the_size_is_looked_at_before_the_symbols() {
    let mut given = cards_from(&["AS", "KS", "QS"]);
    given.push(Card::new("?", "?"));
    assert_eq!(Hand::new(given).unwrap_err(), HandError::InvalidHandSize);
}

#[test]
fn key_cards_come_first_and_each_part_is_in_descending_order() {
    let hand = Hand::new(cards_from(&["2C", "9C", "5D", "9H", "KS"])).unwrap();
    assert_eq!(names(hand.get_key_cards()), vec!["9H", "9C"]);
    assert_eq!(names(hand.get_kickers()), vec!["KS", "5D", "2C"]);
    assert_eq!(names(hand.get_cards()), vec!["9H", "9C", "KS", "5D", "2C"]);
    assert_eq!(names(hand.get_unsorted_cards()), vec!["2C", "9C", "5D", "9H", "KS"]);
}

#[test]
fn a_hand_without_repeated_ranks_has_only_kickers() {
    let hand = Hand::new(cards_from(&["10S", "AS", "JS", "KS", "QS"])).unwrap();
    assert!(hand.get_key_cards().is_empty());
    assert_eq!(names(hand.get_kickers()), vec!["AS", "KS", "QS", "JS", "10S"]);
    assert_eq!(names(hand.get_cards()), vec!["AS", "KS", "QS", "JS", "10S"]);
}

#[test]
fn a_full_house_has_only_key_cards() {
    let hand = Hand::new(cards_from(&["3D", "8S", "3H", "8D", "3C"])).unwrap();
    assert_eq!(names(hand.get_key_cards()), vec!["8S", "8D", "3H", "3C", "3D"]);
    assert!(hand.get_kickers().is_empty());
    assert_eq!(names(hand.get_cards()), vec!["8S", "8D", "3H", "3C", "3D"]);
}

#[test]
fn the_suit_breaks_ties_between_cards_of_one_rank() {
    let hand = Hand::new(cards_from(&["7D", "7S", "7C", "7H", "2H"])).unwrap();
    assert_eq!(names(hand.get_cards()), vec!["7S", "7H", "7C", "7D", "2H"]);
}

#[test]
fn the_parts_keep_the_scores_that_the_cards_came_with() {
    let hand = Hand::new(cards_from(&["2C", "9C", "5D", "9H", "KS"])).unwrap();
    assert_eq!(scores(hand.get_key_cards()), vec![0, 0]);
    assert_eq!(scores(hand.get_kickers()), vec![0, 0, 0]);
    assert_eq!(scores(hand.get_unsorted_cards()), vec![0, 0, 0, 0, 0]);
}

#[test]
fn a_royal_flush_scores_a_thousand_points_and_rank_and_suit() {
    let hand = Hand::new(cards_from(&["AS", "KS", "QS", "JS", "10S"])).unwrap();
    assert_eq!(scores(hand.get_cards()), vec![10144, 10134, 10124, 10114, 10104]);
    let points = hand.get_cards()[0].get_hand_value() as f64 / 10.0;
    assert_eq!(points, 1014.4);
}

#[test]
fn a_high_card_hand_scores_a_hundred_points_and_rank_and_suit() {
    let hand = Hand::new(cards_from(&["2D", "5C", "9H", "JS", "KD"])).unwrap();
    assert_eq!(names(hand.get_cards()), vec!["KD", "JS", "9H", "5C", "2D"]);
    assert_eq!(scores(hand.get_cards()), vec![1131, 1114, 1093, 1052, 1021]);
}

#[test]
fn one_pair_and_two_pair_leave_the_suit_out_of_the_score() {
    let hand = Hand::new(cards_from(&["9H", "9C", "5D", "3S", "2C"])).unwrap();
    assert_eq!(hand.category(), HandCategory::OnePair);
    assert_eq!(scores(hand.get_cards()), vec![2090, 2090, 2050, 2030, 2020]);
    let hand = Hand::new(cards_from(&["9H", "9C", "5D", "5S", "2C"])).unwrap();
    assert_eq!(hand.category(), HandCategory::TwoPair);
    assert_eq!(names(hand.get_cards()), vec!["9H", "9C", "5S", "5D", "2C"]);
    assert_eq!(scores(hand.get_cards()), vec![3090, 3090, 3050, 3050, 3020]);
}

#[test]
fn every_other_category_has_the_suit_in_the_score() {
    let hand = Hand::new(cards_from(&["2D", "2C", "2H", "JS", "KD"])).unwrap();
    assert_eq!(hand.category(), HandCategory::ThreeOfAKind);
    assert_eq!(names(hand.get_cards()), vec!["2H", "2C", "2D", "KD", "JS"]);
    assert_eq!(scores(hand.get_cards()), vec![4023, 4022, 4021, 4131, 4114]);
    let hand = Hand::new(cards_from(&["9D", "10C", "JH", "QS", "KD"])).unwrap();
    assert_eq!(hand.category(), HandCategory::Straight);
    assert_eq!(scores(hand.get_cards()), vec![5131, 5124, 5113, 5102, 5091]);
    let hand = Hand::new(cards_from(&["2D", "5D", "9D", "JD", "KD"])).unwrap();
    assert_eq!(hand.category(), HandCategory::Flush);
    assert_eq!(scores(hand.get_cards()), vec![6131, 6111, 6091, 6051, 6021]);
    let hand = Hand::new(cards_from(&["2D", "2C", "2H", "KS", "KD"])).unwrap();
    assert_eq!(hand.category(), HandCategory::FullHouse);
    assert_eq!(scores(hand.get_cards()), vec![7134, 7131, 7023, 7022, 7021]);
    let hand = Hand::new(cards_from(&["2D", "2C", "2H", "2S", "KD"])).unwrap();
    assert_eq!(hand.category(), HandCategory::FourOfAKind);
    assert_eq!(scores(hand.get_cards()), vec![8024, 8023, 8022, 8021, 8131]);
    let hand = Hand::new(cards_from(&["9H", "10H", "JH", "QH", "KH"])).unwrap();
    assert_eq!(hand.category(), HandCategory::StraightFlush);
    assert_eq!(scores(hand.get_cards()), vec![9133, 9123, 9113, 9103, 9093]);
}

#[test]
fn evaluation_adds_to_the_score_that_a_card_came_with() {
    let mut given = cards_from(&["AS", "KS", "QS", "JS", "10S"]);
    given[1].set_hand_value(7);
    let hand = Hand::new(given).unwrap();
    assert_eq!(scores(hand.get_cards()), vec![10144, 10141, 10124, 10114, 10104]);
    assert_eq!(scores(hand.get_unsorted_cards()), vec![0, 7, 0, 0, 0]);
}

#[test]
fn scoring_twice_compounds() {
    let mut given = cards_from(&["9H", "9C", "5D", "3S", "2C"]);
    assert_eq!(evaluate_hand(&mut given), HandCategory::OnePair);
    assert_eq!(scores(&given), vec![2090, 2090, 2050, 2030, 2020]);
    assert_eq!(evaluate_hand(&mut given), HandCategory::OnePair);
    assert_eq!(scores(&given), vec![4180, 4180, 4100, 4060, 4040]);
}

#[test]
fn the_base_value_and_the_category_decide_the_score() {
    let mut given = cards_from(&["AS", "2D"]);
    set_hand_value_to_cards(&mut given, HandCategory::Flush, 600);
    assert_eq!(scores(&given), vec![6144, 6021]);
    set_hand_value_to_cards(&mut given, HandCategory::OnePair, 200);
    assert_eq!(scores(&given), vec![6144 + 2140, 6021 + 2020]);
    set_hand_value_to_cards(&mut given, HandCategory::HighCard, 0);
    assert_eq!(scores(&given), vec![6144 + 2140 + 144, 6021 + 2020 + 21]);
}

#[test]
fn the_cards_are_split_by_the_frequency_of_their_rank() {
    let (key_cards, kickers) =
        separate_key_cards_and_kickers(&cards_from(&["2C", "9C", "5D", "9H", "2S", "KD"]));
    assert_eq!(names(&key_cards), vec!["2C", "9C", "9H", "2S"]);
    assert_eq!(names(&kickers), vec!["5D", "KD"]);
}

#[test]
fn sorting_is_descending_and_stable() {
    let mut given = cards_from(&["5D", "AS", "5D", "2C", "AS", "KH"]);
    given[0].set_hand_value(1);
    given[2].set_hand_value(2);
    given[1].set_hand_value(3);
    given[4].set_hand_value(4);
    let sorted = sort_cards(&given);
    assert_eq!(names(&sorted), vec!["AS", "AS", "KH", "5D", "5D", "2C"]);
    assert_eq!(scores(&sorted), vec![3, 4, 0, 1, 2, 0]);
    assert!(sort_cards(&cards_from(&[])).is_empty());
}

#[test]
fn sorting_a_hand_sorts_both_parts_and_joins_them() {
    let mut key_cards = cards_from(&["5D", "9C", "5S", "9H"]);
    let mut kickers = cards_from(&["2C"]);
    let joined = sort_hand(&mut key_cards, &mut kickers);
    assert_eq!(names(&key_cards), vec!["9H", "9C", "5S", "5D"]);
    assert_eq!(names(&kickers), vec!["2C"]);
    assert_eq!(names(&joined), vec!["9H", "9C", "5S", "5D", "2C"]);
}

#[test]
fn a_hand_is_shown_as_it_was_dealt_in_columns_of_three() {
    let hand = Hand::new(cards_from(&["10S", "AS", "JS", "KS", "QS"])).unwrap();
    assert_eq!(hand.to_string(), "10S AS  JS  KS  QS ");
    let hand = Hand::new(cards_from(&["2C", "9C", "5D", "9H", "10D"])).unwrap();
    assert_eq!(hand.to_string(), "2C  9C  5D  9H  10D");
}

#[test]
fn a_hand_is_listed_in_canonical_order() {
    let hand = Hand::new(cards_from(&["10S", "AS", "JS", "KS", "QS"])).unwrap();
    assert_eq!(ToStringCustom::to_string(&hand), "AS, KS, QS, JS, 10S");
}

#[test]
fn the_cards_for_display_can_be_replaced() {
    let mut hand = Hand::new(cards_from(&["10S", "AS", "JS", "KS", "QS"])).unwrap();
    hand.set_unsorted(cards_from(&["2D", "3D"]));
    assert_eq!(names(hand.get_unsorted_cards()), vec!["2D", "3D"]);
    assert_eq!(hand.to_string(), "2D  3D ");
    assert_eq!(names(hand.get_cards()), vec!["AS", "KS", "QS", "JS", "10S"]);
    assert_eq!(hand.get_hand_type(), "Royal Flush");
    hand.set_unsorted(Vec::new());
    assert_eq!(hand.to_string(), "");
}

#[test]
fn padding_fills_up_to_the_width_and_never_cuts() {
    assert_eq!(pad_to_width("AS".to_string(), 3), "AS ");
    assert_eq!(pad_to_width("10S".to_string(), 3), "10S");
    assert_eq!(pad_to_width("10SX".to_string(), 3), "10SX");
    assert_eq!(pad_to_width(String::new(), 2), "  ");
    assert_eq!(pad_to_width("é".to_string(), 3), "é  ");
}

#[test]
fn the_largest_score_of_evaluation_is_that_of_the_ace_of_spades_in_a_royal_flush() {
    let hand = Hand::new(cards_from(&["AS", "KS", "QS", "JS", "10S"])).unwrap();
    assert_eq!(hand.get_cards()[0].get_hand_value(), MAX_CARD_SCORE);
}

#[test]
fn room_for_scores_ends_where_the_largest_score_would_not_fit() {
    let mut given = cards_from(&["AS", "KS"]);
    assert!(has_room_for_scores(&given));
    given[1].set_hand_value(u64::MAX - MAX_CARD_SCORE);
    assert!(has_room_for_scores(&given));
    given[1].set_hand_value(1);
    assert!(!has_room_for_scores(&given));
    assert!(has_room_for_scores(&Vec::new()));
}

#[test]
fn a_hand_is_made_of_cards_that_have_just_room_enough() {
    let mut given = cards_from(&["AS", "KS", "QS", "JS", "10S"]);
    given[0].set_hand_value(u64::MAX - MAX_CARD_SCORE);
    let hand = Hand::new(given).unwrap();
    assert_eq!(hand.get_cards()[0].get_hand_value(), u64::MAX);
}

#[test]
fn a_hand_does_not_look_for_cards_that_occur_twice() {
    let hand = Hand::new(cards_from(&["AS", "AS", "AS", "AS", "AS"])).unwrap();
    assert_eq!(hand.get_hand_type(), "Flush");
    assert_eq!(names(hand.get_key_cards()).len(), 5);
    let mut given = cards_from(&["9H", "KD", "9H", "9H", "2C"]);
    given[0].set_hand_value(1);
    given[2].set_hand_value(2);
    given[3].set_hand_value(3);
    let hand = Hand::new(given).unwrap();
    assert_eq!(hand.get_hand_type(), "Three of a Kind");
    assert_eq!(scores(hand.get_key_cards()), vec![1, 2, 3]);
    assert_eq!(scores(hand.get_cards()), vec![4094, 4095, 4096, 4131, 4022]);
}
