use poker_hands::card::Card;
use poker_hands::category::{
    contains_n_of_a_kind, count_pairs, face_counts, is_flush, is_straight, HandCategory,
};
use poker_hands::hand::Hand;

fn cards(tokens: &[(&str, &str)]) -> Vec<Card> {
    tokens.iter().map(|(face, suit)| Card::new(face, suit)).collect()
}

fn hand(tokens: &[(&str, &str)]) -> Hand {
    Hand::new(cards(tokens)).unwrap()
}

#[test]
fn consecutive_diamonds_are_a_straight_flush() {
    let h = hand(&[("2", "D"), ("3", "D"), ("4", "D"), ("5", "D"), ("6", "D")]);
    assert_eq!(h.get_hand_type(), "Straight Flush");
    assert_eq!(h.category(), HandCategory::StraightFlush);
}

#[test]
fn ace_high_spades_are_a_royal_flush() {
    let h = hand(&[("A", "S"), ("K", "S"), ("Q", "S"), ("J", "S"), ("10", "S")]);
    assert_eq!(h.get_hand_type(), "Royal Flush");
    assert_eq!(h.category(), HandCategory::RoyalFlush);
}

#[test]
fn four_sevens_are_four_of_a_kind() {
    let h = hand(&[("7", "H"), ("7", "C"), ("7", "S"), ("7", "D"), ("2", "H")]);
    assert_eq!(h.get_hand_type(), "Four of a Kind");
}

#[test]
fn nines_and_fives_are_two_pair() {
    let h = hand(&[("9", "H"), ("9", "C"), ("5", "D"), ("5", "S"), ("2", "C")]);
    assert_eq!(h.get_hand_type(), "Two Pair");
}

#[test]
fn low_ace_run_in_mixed_suits_is_a_straight() {
    let h = hand(&[("A", "H"), ("2", "H"), ("3", "D"), ("4", "C"), ("5", "S")]);
    assert_eq!(h.get_hand_type(), "Straight");
    assert_ne!(h.get_hand_type(), "High Card");
}

#[test]
fn low_ace_run_in_one_suit_is_a_straight_flush() {
    let h = hand(&[("A", "C"), ("2", "C"), ("3", "C"), ("4", "C"), ("5", "C")]);
    assert_eq!(h.get_hand_type(), "Straight Flush");
    let h = hand(&[("5", "H"), ("3", "H"), ("A", "H"), ("2", "H"), ("4", "H")]);
    assert_eq!(h.category(), HandCategory::StraightFlush);
}

#[test]
fn every_category_is_recognised() {
    let samples: [(&[(&str, &str)], &str); 10] = [
        (&[("2", "D"), ("5", "C"), ("9", "H"), ("J", "S"), ("K", "D")], "High Card"),
        (&[("2", "D"), ("2", "C"), ("9", "H"), ("J", "S"), ("K", "D")], "One Pair"),
        (&[("2", "D"), ("2", "C"), ("9", "H"), ("9", "S"), ("K", "D")], "Two Pair"),
        (&[("2", "D"), ("2", "C"), ("2", "H"), ("J", "S"), ("K", "D")], "Three of a Kind"),
        (&[("9", "D"), ("10", "C"), ("J", "H"), ("Q", "S"), ("K", "D")], "Straight"),
        (&[("2", "D"), ("5", "D"), ("9", "D"), ("J", "D"), ("K", "D")], "Flush"),
        (&[("2", "D"), ("2", "C"), ("2", "H"), ("K", "S"), ("K", "D")], "Full House"),
        (&[("2", "D"), ("2", "C"), ("2", "H"), ("2", "S"), ("K", "D")], "Four of a Kind"),
        (&[("9", "H"), ("10", "H"), ("J", "H"), ("Q", "H"), ("K", "H")], "Straight Flush"),
        (&[("10", "H"), ("J", "H"), ("Q", "H"), ("K", "H"), ("A", "H")], "Royal Flush"),
    ];
    for (tokens, name) in samples {
        assert_eq!(hand(tokens).get_hand_type(), name);
    }
}

#[test]
fn the_labels_and_tiers_run_from_weakest_to_strongest() {
    let expected = [
        (HandCategory::HighCard, "High Card", 1u64, 100u64),
        (HandCategory::OnePair, "One Pair", 2, 200),
        (HandCategory::TwoPair, "Two Pair", 3, 300),
        (HandCategory::ThreeOfAKind, "Three of a Kind", 4, 400),
        (HandCategory::Straight, "Straight", 5, 500),
        (HandCategory::Flush, "Flush", 6, 600),
        (HandCategory::FullHouse, "Full House", 7, 700),
        (HandCategory::FourOfAKind, "Four of a Kind", 8, 800),
        (HandCategory::StraightFlush, "Straight Flush", 9, 900),
        (HandCategory::RoyalFlush, "Royal Flush", 10, 1000),
    ];
    for (category, label, tier, base) in expected {
        assert_eq!(category.label(), label);
        assert_eq!(category.tier(), tier);
        assert_eq!(category.base_value(), base);
    }
}

#[test]
fn only_the_pair_categories_leave_the_suit_out() {
    assert!(!HandCategory::OnePair.counts_suit());
    assert!(!HandCategory::TwoPair.counts_suit());
    for category in [
        HandCategory::HighCard,
        HandCategory::ThreeOfAKind,
        HandCategory::Straight,
        HandCategory::Flush,
        HandCategory::FullHouse,
        HandCategory::FourOfAKind,
        HandCategory::StraightFlush,
        HandCategory::RoyalFlush,
    ] {
        assert!(category.counts_suit());
    }
}

#[test]
fn the_order_of_the_cards_does_not_change_the_category() {
    let base = [("9", "H"), ("9", "C"), ("5", "D"), ("5", "S"), ("2", "C")];
    let orders: [[usize; 5]; 6] = [
        [0, 1, 2, 3, 4],
        [4, 3, 2, 1, 0],
        [2, 0, 4, 1, 3],
        [1, 4, 0, 3, 2],
        [3, 2, 1, 4, 0],
        [4, 0, 3, 1, 2],
    ];
    for order in orders {
        let tokens: Vec<(&str, &str)> = order.iter().map(|&i| base[i]).collect();
        let h = hand(&tokens);
        assert_eq!(h.get_hand_type(), "Two Pair");
        let ordered: Vec<String> = h.get_cards().iter().map(|c| c.to_string()).collect();
        assert_eq!(ordered, vec!["9H", "9C", "5S", "5D", "2C"]);
    }
}

#[test]
fn scores_on_the_cards_do_not_change_the_category() {
    let mut given = cards(&[("A", "S"), ("K", "S"), ("Q", "S"), ("J", "S"), ("10", "S")]);
    given[0].set_hand_value(5);
    given[3].set_hand_value(70000);
    assert_eq!(Hand::new(given).unwrap().get_hand_type(), "Royal Flush");
}

#[test]
fn a_royal_flush_is_a_flush_and_a_straight() {
    let h = hand(&[("A", "S"), ("K", "S"), ("Q", "S"), ("J", "S"), ("10", "S")]);
    assert_eq!(h.category(), HandCategory::RoyalFlush);
    assert!(is_flush(h.get_cards()));
    assert!(is_straight(h.get_cards()));
    let h = hand(&[("5", "D"), ("6", "D"), ("7", "D"), ("8", "D"), ("9", "D")]);
    assert_eq!(h.category(), HandCategory::StraightFlush);
    assert!(is_flush(h.get_cards()));
    assert!(is_straight(h.get_cards()));
}

#[test]
fn flush_and_straight_are_told_apart() {
    let flush_only = cards(&[("2", "D"), ("5", "D"), ("9", "D"), ("J", "D"), ("K", "D")]);
    assert!(is_flush(&flush_only));
    assert!(!is_straight(&flush_only));
    let straight_only = cards(&[("9", "D"), ("10", "C"), ("J", "H"), ("Q", "S"), ("K", "D")]);
    assert!(!is_flush(&straight_only));
    assert!(is_straight(&straight_only));
}

#[test]
fn the_ace_does_not_join_a_run_in_the_middle() {
    let wrapped = cards(&[("Q", "D"), ("K", "C"), ("A", "H"), ("2", "S"), ("3", "D")]);
    assert!(!is_straight(&wrapped));
    assert_eq!(Hand::new(wrapped).unwrap().get_hand_type(), "High Card");
    let high = cards(&[("10", "D"), ("J", "C"), ("Q", "H"), ("K", "S"), ("A", "D")]);
    assert!(is_straight(&high));
    assert_eq!(Hand::new(high).unwrap().get_hand_type(), "Straight");
}

#[test]
fn a_straight_needs_five_cards_and_five_ranks() {
    assert!(!is_straight(&cards(&[("2", "D"), ("3", "D"), ("4", "D"), ("5", "D")])));
    assert!(!is_straight(&cards(&[])));
    assert!(!is_straight(&cards(&[("2", "D"), ("3", "D"), ("4", "D"), ("5", "D"), ("5", "C")])));
    assert!(!is_straight(&cards(&[
        ("2", "D"),
        ("3", "D"),
        ("4", "D"),
        ("5", "D"),
        ("6", "D"),
        ("7", "D"),
    ])));
}

#[test]
fn an_ace_high_straight_flush_without_a_king_cannot_be() {
    // A royal flush needs ace and king; the low-ace run has the ace but not the king.
    let h = hand(&[("A", "D"), ("2", "D"), ("3", "D"), ("4", "D"), ("5", "D")]);
    assert_ne!(h.category(), HandCategory::RoyalFlush);
    assert_ne!(h.category(), HandCategory::HighCard);
    assert_eq!(h.category(), HandCategory::StraightFlush);
}

#[test]
fn the_frequency_table_counts_every_rank() {
    let table = face_counts(&cards(&[("9", "H"), ("9", "C"), ("A", "D"), ("5", "S"), ("2", "C")]));
    assert_eq!(table.len(), 15);
    let mut expected = vec![0usize; 15];
    expected[9] = 2;
    expected[14] = 1;
    expected[5] = 1;
    expected[2] = 1;
    assert_eq!(table, expected);
    assert!(contains_n_of_a_kind(&table, 2));
    assert!(!contains_n_of_a_kind(&table, 3));
    assert_eq!(count_pairs(&table), 1);
}

#[test]
fn unknown_faces_are_counted_in_slot_zero() {
    let table = face_counts(&cards(&[("x", "H"), ("", "C"), ("A", "D")]));
    assert_eq!(table[0], 2);
    assert_eq!(table[14], 1);
}

#[test]
fn pairs_are_counted_by_rank() {
    assert_eq!(count_pairs(&vec![0, 2, 2, 1, 0]), 2);
    assert_eq!(count_pairs(&vec![3, 1, 4]), 0);
    assert_eq!(count_pairs(&vec![]), 0);
    assert!(contains_n_of_a_kind(&vec![3, 1, 4], 4));
    assert!(!contains_n_of_a_kind(&vec![], 0));
}

#[test]
fn full_house_wins_over_flush_and_three_of_a_kind() {
    let h = hand(&[("3", "D"), ("3", "C"), ("3", "H"), ("8", "S"), ("8", "D")]);
    assert_eq!(h.category(), HandCategory::FullHouse);
    let h = hand(&[("3", "D"), ("3", "C"), ("3", "H"), ("8", "S"), ("9", "D")]);
    assert_eq!(h.category(), HandCategory::ThreeOfAKind);
}

#[test]
fn no_cards_share_a_suit_trivially() {
    assert!(is_flush(&cards(&[])));
    assert!(is_flush(&cards(&[("2", "D")])));
    assert!(!is_flush(&cards(&[("2", "D"), ("2", "C")])));
}
