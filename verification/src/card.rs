//! A single playing card and the numbers that rank it.
//!
//! Strengths are fixed-point numbers with one decimal place, held as a whole
//! number of tenths: a score of 1014.4 points is stored as 10144.

use vstd::prelude::*;
use vstd::string::*;
use crate::error::HandError;
use crate::text::ToStringCustom;

verus! {

/// How many tenths make one point of score.
pub const TENTHS_PER_POINT: u64 = 10;

/// A playing card: its face symbol, its suit symbol and the score that
/// evaluation has accumulated on it so far, in tenths of a point.
#[derive(Debug)]
pub struct Card {
    /// The face symbol: `2` to `10`, `J`, `Q`, `K` or `A`.
    pub face: String,
    /// The suit symbol: `D`, `C`, `H` or `S`.
    pub suit: String,
    /// The score accumulated so far, in tenths of a point.
    pub hand_value: u64,
}

/// The mathematical content of a [`Card`].
pub struct CardView {
    /// The characters of the face symbol.
    pub face: Seq<char>,
    /// The characters of the suit symbol.
    pub suit: Seq<char>,
    /// The score in tenths of a point.
    pub score: int,
}

impl View for Card {
    type V = CardView;

    /// The characters of the two symbols, and the score as a number.
    open spec fn view(&self) -> CardView {
        CardView { face: self.face@, suit: self.suit@, score: self.hand_value as int }
    }
}

/// The ordinal of a face symbol: 2 to 10 for the pip cards, 11 for `J`,
/// 12 for `Q`, 13 for `K`, 14 for `A`, and 0 for anything else.
pub open spec fn rank_of(face: Seq<char>) -> int {
    if face.len() == 1 {
        let c = face[0];
        if c == '2' {
            2
        } else if c == '3' {
            3
        } else if c == '4' {
            4
        } else if c == '5' {
            5
        } else if c == '6' {
            6
        } else if c == '7' {
            7
        } else if c == '8' {
            8
        } else if c == '9' {
            9
        } else if c == 'J' {
            11
        } else if c == 'Q' {
            12
        } else if c == 'K' {
            13
        } else if c == 'A' {
            14
        } else {
            0
        }
    } else if face.len() == 2 && face[0] == '1' && face[1] == '0' {
        10
    } else {
        0
    }
}

/// The tie-break weight of a suit symbol in tenths of a point: 1 for `D`,
/// 2 for `C`, 3 for `H`, 4 for `S`, and 0 for anything else.
pub open spec fn weight_of(suit: Seq<char>) -> int {
    if suit.len() == 1 {
        let c = suit[0];
        if c == 'D' {
            1
        } else if c == 'C' {
            2
        } else if c == 'H' {
            3
        } else if c == 'S' {
            4
        } else {
            0
        }
    } else {
        0
    }
}

impl CardView {
    /// The rank ordinal of the card, 0 when the face symbol is unknown.
    pub open spec fn rank(self) -> int {
        rank_of(self.face)
    }

    /// The suit weight of the card in tenths, 0 when the suit symbol is unknown.
    pub open spec fn weight(self) -> int {
        weight_of(self.suit)
    }

    /// A card is valid when both its symbols are known.
    pub open spec fn is_valid(self) -> bool {
        self.rank() != 0 && self.weight() != 0
    }

    /// The key by which the cards of a hand are put in order: the rank in
    /// points with the suit weight as its decimal place, in tenths.
    pub open spec fn sort_key(self) -> int {
        TENTHS_PER_POINT * self.rank() + self.weight()
    }

    /// What tells one card from another: its two symbols, without the score.
    pub open spec fn identity(self) -> (Seq<char>, Seq<char>) {
        (self.face, self.suit)
    }

    /// The identifier under which the card is written, such as `10S`.
    pub open spec fn identifier(self) -> Seq<char> {
        self.face + self.suit
    }
}

impl Card {
    /// A card with the given symbols and a score of zero. The symbols are
    /// taken as they are; see [`Card::is_valid`].
    pub fn new(face: &str, suit: &str) -> (card: Card)
        ensures
            card@ == (CardView { face: face@, suit: suit@, score: 0 }),
    {
        Card { face: String::from_str(face), suit: String::from_str(suit), hand_value: 0 }
    }

    /// A card with the given symbols and a score of zero, refused unless
    /// both symbols are known.
    pub fn try_new(face: &str, suit: &str) -> (made: Result<Card, HandError>)
        ensures
            match made {
                Ok(card) => card@ == (CardView { face: face@, suit: suit@, score: 0 })
                    && card@.is_valid(),
                Err(error) => error == HandError::InvalidCard && !(CardView {
                    face: face@,
                    suit: suit@,
                    score: 0,
                }).is_valid(),
            },
    {
        let card = Card::new(face, suit);
        if card.is_valid() {
            Ok(card)
        } else {
            Err(HandError::InvalidCard)
        }
    }

    /// The identifier of the card: its face symbol followed by its suit symbol.
    pub fn to_string(&self) -> (text: String)
        ensures
            text@ == self@.identifier(),
    {
        let mut text = self.face.clone();
        text.append(self.suit.as_str());
        text
    }

    /// The rank ordinal: 2 to 14 with the ace high, 0 for an unknown face.
    pub fn face_value(&self) -> (value: u64)
        ensures
            value == self@.rank(),
            value == 0 || 2 <= value <= 14,
    {
        let face = self.face.as_str();
        let len = face.unicode_len();
        if len == 1 {
            let c = face.get_char(0);
            if c == '2' {
                2
            } else if c == '3' {
                3
            } else if c == '4' {
                4
            } else if c == '5' {
                5
            } else if c == '6' {
                6
            } else if c == '7' {
                7
            } else if c == '8' {
                8
            } else if c == '9' {
                9
            } else if c == 'J' {
                11
            } else if c == 'Q' {
                12
            } else if c == 'K' {
                13
            } else if c == 'A' {
                14
            } else {
                0
            }
        } else if len == 2 {
            if face.get_char(0) == '1' && face.get_char(1) == '0' {
                10
            } else {
                0
            }
        } else {
            0
        }
    }

    /// The suit weight in tenths of a point: 1 to 4, 0 for an unknown suit.
    pub fn suit_value(&self) -> (value: u64)
        ensures
            value == self@.weight(),
            value <= 4,
    {
        let suit = self.suit.as_str();
        if suit.unicode_len() == 1 {
            let c = suit.get_char(0);
            if c == 'D' {
                1
            } else if c == 'C' {
                2
            } else if c == 'H' {
                3
            } else if c == 'S' {
                4
            } else {
                0
            }
        } else {
            0
        }
    }

    /// The key by which the cards of a hand are put in order.
    pub fn sort_key(&self) -> (key: u64)
        ensures
            key == self@.sort_key(),
            key <= 144,
    {
        TENTHS_PER_POINT * self.face_value() + self.suit_value()
    }

    /// Whether both symbols of the card are known.
    pub fn is_valid(&self) -> (valid: bool)
        ensures
            valid == self@.is_valid(),
    {
        self.face_value() != 0 && self.suit_value() != 0
    }

    /// The score accumulated so far, in tenths of a point.
    pub fn get_hand_value(&self) -> (value: u64)
        ensures
            value == self@.score,
    {
        self.hand_value
    }

    /// Adds `value` tenths to the score; the score is never reset here. The
    /// sum must not leave the range of the machine's numbers.
    pub fn set_hand_value(&mut self, value: u64)
        requires
            old(self)@.score + value <= u64::MAX,
        ensures
            final(self)@ == (CardView { score: old(self)@.score + value, ..old(self)@ }),
    {
        self.hand_value = self.hand_value + value;
    }
}

impl ToStringCustom for Card {
    /// The card in words: its face symbol, ` of `, its suit symbol.
    open spec fn custom_text(&self) -> Seq<char> {
        self@.face + " of "@ + self@.suit
    }

    fn to_string(&self) -> (text: String) {
        let mut text = self.face.clone();
        text.append(" of ");
        text.append(self.suit.as_str());
        text
    }
}

impl Clone for Card {
    /// A copy of the card, score included.
    fn clone(&self) -> (copy: Card)
        ensures
            copy == *self,
    {
        Card { face: self.face.clone(), suit: self.suit.clone(), hand_value: self.hand_value }
    }
}

/// The sort key as a function, for sorting.
pub open spec fn by_sort_key() -> spec_fn(CardView) -> int {
    |card: CardView| card.sort_key()
}

/// A rank ordinal is 0 or lies between 2 and 14; a suit weight is at most 4.
pub proof fn lemma_symbol_ranges(card: CardView)
    ensures
        card.rank() == 0 || 2 <= card.rank() <= 14,
        0 <= card.weight() <= 4,
{
}

/// The identities of a sequence of cards, position by position.
pub open spec fn identities(cards: Seq<CardView>) -> Seq<(Seq<char>, Seq<char>)> {
    cards.map_values(|c: CardView| c.identity())
}

/// The views of a sequence of cards, position by position.
pub open spec fn views_of(cards: Seq<Card>) -> Seq<CardView> {
    cards.map_values(|c: Card| c@)
}

} // verus!
