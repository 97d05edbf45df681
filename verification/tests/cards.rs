use poker_hands::card::Card;
use poker_hands::error::HandError;
use poker_hands::text::ToStringCustom;

#[test]
fn every_face_symbol_has_its_ordinal() {
    let expected = [
        ("2", 2u64),
        ("3", 3),
        ("4", 4),
        ("5", 5),
        ("6", 6),
        ("7", 7),
        ("8", 8),
        ("9", 9),
        ("10", 10),
        ("J", 11),
        ("Q", 12),
        ("K", 13),
        ("A", 14),
    ];
    for (face, value) in expected {
        assert_eq!(Card::new(face, "S").face_value(), value, "face {}", face);
    }
}

#[test]
fn unknown_face_symbols_count_as_zero() {
    for face in ["", "1", "0", "11", "a", "j", "X", "100", "1O", "20", " A", "A "] {
        assert_eq!(Card::new(face, "S").face_value(), 0, "face {:?}", face);
    }
}

#[test]
fn every_suit_symbol_has_its_weight_in_tenths() {
    assert_eq!(Card::new("A", "D").suit_value(), 1);
    assert_eq!(Card::new("A", "C").suit_value(), 2);
    assert_eq!(Card::new("A", "H").suit_value(), 3);
    assert_eq!(Card::new("A", "S").suit_value(), 4);
}

#[test]
fn suit_weights_stay_below_one_point() {
    for suit in ["D", "C", "H", "S"] {
        let tenths = Card::new("2", suit).suit_value();
        assert!(tenths > 0);
        assert!((tenths as f64) / 10.0 < 1.0);
    }
}

#[test]
fn unknown_suit_symbols_weigh_nothing() {
    for suit in ["", "d", "X", "DS", "SS", "♠"] {
        assert_eq!(Card::new("A", suit).suit_value(), 0, "suit {:?}", suit);
    }
}

#[test]
fn a_card_is_valid_when_both_symbols_are_known() {
    assert!(Card::new("10", "H").is_valid());
    assert!(!Card::new("1", "H").is_valid());
    assert!(!Card::new("10", "h").is_valid());
    assert!(!Card::new("", "").is_valid());
}

#[test]
fn a_new_card_keeps_its_symbols_and_starts_at_zero() {
    let card = Card::new("Q", "C");
    assert_eq!(card.face, "Q");
    assert_eq!(card.suit, "C");
    assert_eq!(card.hand_value, 0);
    assert_eq!(card.get_hand_value(), 0);
}

#[test]
fn the_identifier_is_face_then_suit() {
    assert_eq!(Card::new("A", "S").to_string(), "AS");
    assert_eq!(Card::new("10", "D").to_string(), "10D");
    assert_eq!(Card::new("x", "yz").to_string(), "xyz");
}

#[test]
fn the_card_in_words() {
    assert_eq!(ToStringCustom::to_string(&Card::new("A", "S")), "A of S");
    assert_eq!(ToStringCustom::to_string(&Card::new("10", "H")), "10 of H");
}

#[test]
fn setting_the_hand_value_adds_to_it() {
    let mut card = Card::new("7", "H");
    card.set_hand_value(1073);
    assert_eq!(card.get_hand_value(), 1073);
    card.set_hand_value(1073);
    assert_eq!(card.get_hand_value(), 2146);
    card.set_hand_value(0);
    assert_eq!(card.get_hand_value(), 2146);
}

#[test]
fn the_sort_key_is_rank_then_suit() {
    assert_eq!(Card::new("A", "S").sort_key(), 144);
    assert_eq!(Card::new("2", "D").sort_key(), 21);
    assert_eq!(Card::new("10", "C").sort_key(), 102);
    assert!(Card::new("9", "D").sort_key() > Card::new("8", "S").sort_key());
}

#[test]
fn a_clone_keeps_symbols_and_score() {
    let mut card = Card::new("K", "D");
    card.set_hand_value(42);
    let copy = card.clone();
    assert_eq!(copy.face, "K");
    assert_eq!(copy.suit, "D");
    assert_eq!(copy.get_hand_value(), 42);
}

#[test]
fn the_checked_constructor_refuses_unknown_symbols() {
    let card = Card::try_new("10", "H").unwrap();
    assert_eq!((card.face.as_str(), card.suit.as_str(), card.hand_value), ("10", "H", 0));
    assert_eq!(Card::try_new("1", "H").unwrap_err(), HandError::InvalidCard);
    assert_eq!(Card::try_new("A", "X").unwrap_err(), HandError::InvalidCard);
    assert_eq!(Card::try_new("", "").unwrap_err(), HandError::InvalidCard);
    assert_eq!(Card::try_new("S", "A").unwrap_err(), HandError::InvalidCard);
}
