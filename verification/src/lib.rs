//! Evaluation of five-card poker hands.
//!
//! A [`Card`] holds a face symbol, a suit symbol and a score. A [`Hand`] is
//! made of five cards: it puts them in a canonical order (the cards of a
//! repeated rank first, then the others, each part in descending order),
//! assigns one of the ten categories of [`HandCategory`], and adds to every
//! card a score that the category and the card decide. Two hands are compared
//! by [`Hand::compare_to`], and a list of hands is put in the order of their
//! categories by [`batch::winning_order`].
//!
//! The rules are laid out in [`category`] (the categories), [`arrange`] (the
//! canonical order), [`score`] (the scores) and [`compare`] (the comparison);
//! [`order`] holds the sorting that they share. Around this stand the deck
//! ([`deck`]) and the reading of hands from lines of text ([`parse`],
//! [`batch`]).
//!
//! Every function states what it returns over mathematical views of the
//! data: [`card::CardView`] for a card and [`hand::HandView`] for a hand.
//! Scores are fixed-point numbers held as tenths of a point.

pub mod arrange;
pub mod batch;
pub mod card;
pub mod category;
pub mod compare;
pub mod deck;
pub mod error;
pub mod hand;
pub mod order;
pub mod parse;
pub mod score;
pub mod text;

pub use card::Card;
pub use category::HandCategory;
pub use error::HandError;
pub use hand::Hand;
pub use text::ToStringCustom;
