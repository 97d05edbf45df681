//! The deck of fifty-two cards: building it, shuffling it, dealing hands
//! from it and writing it out.

use vstd::prelude::*;
use vstd::string::StringExecFns;
use rand::rngs::ThreadRng;
use rand::seq::SliceRandom;
use crate::card::{Card, CardView, views_of};
use crate::error::HandError;
use crate::category::category_of;
use crate::hand::{HAND_SIZE, Hand, hand_of};
use crate::score::scores_fit;

verus! {

/// The number of cards in a full deck.
pub const DECK_SIZE: usize = 52;

/// The number of faces in each suit.
pub const FACES_PER_SUIT: usize = 13;

/// The face symbols from the lowest to the highest.
pub open spec fn face_symbols() -> Seq<Seq<char>> {
    seq![
        "2"@,
        "3"@,
        "4"@,
        "5"@,
        "6"@,
        "7"@,
        "8"@,
        "9"@,
        "10"@,
        "J"@,
        "Q"@,
        "K"@,
        "A"@,
    ]
}

/// The suit symbols from the lightest to the heaviest.
pub open spec fn suit_symbols() -> Seq<Seq<char>> {
    seq!["D"@, "C"@, "H"@, "S"@]
}

/// The deck in its order of manufacture: suit by suit, and in each suit the
/// faces from the two to the ace, every card with a score of zero.
pub open spec fn ordered_deck() -> Seq<CardView> {
    Seq::new(
        DECK_SIZE as nat,
        |i: int|
            CardView {
                face: face_symbols()[i % FACES_PER_SUIT as int],
                suit: suit_symbols()[i / FACES_PER_SUIT as int],
                score: 0,
            },
    )
}

/// Builds the deck in its order of manufacture.
pub fn create_ordered_deck() -> (deck: Vec<Card>)
    ensures
        views_of(deck@) == ordered_deck(),
{
    let faces: [&str; 13] = ["2", "3", "4", "5", "6", "7", "8", "9", "10", "J", "Q", "K", "A"];
    let suits: [&str; 4] = ["D", "C", "H", "S"];
    let mut deck: Vec<Card> = Vec::new();
    let mut s: usize = 0;
    while s < 4
        invariant
            0 <= s <= 4,
            faces@ =~= seq!["2", "3", "4", "5", "6", "7", "8", "9", "10", "J", "Q", "K", "A"],
            suits@ =~= seq!["D", "C", "H", "S"],
            deck@.len() == s * 13,
            forall|i: int| 0 <= i < deck@.len() ==> (#[trigger] deck@[i])@ == ordered_deck()[i],
        decreases 4 - s,
    {
        let mut f: usize = 0;
        while f < 13
            invariant
                0 <= s < 4,
                0 <= f <= 13,
                faces@ =~= seq!["2", "3", "4", "5", "6", "7", "8", "9", "10", "J", "Q", "K", "A"],
                suits@ =~= seq!["D", "C", "H", "S"],
                deck@.len() == s * 13 + f,
                forall|i: int| 0 <= i < deck@.len() ==> (#[trigger] deck@[i])@ == ordered_deck()[i],
            decreases 13 - f,
        {
            let card = Card::new(faces[f], suits[s]);
            deck.push(card);
            f += 1;
        }
        s += 1;
    }
    deck
}

/// The generator of random numbers that `rand` keeps for each thread. Nothing
/// of what is inside it is known here.
#[verifier::external_type_specification]
#[verifier::external_body]
pub struct ExThreadRng(rand::rngs::ThreadRng);

/// `rand::thread_rng` hands out the generator of the current thread. Nothing
/// is claimed of the generator or of the numbers that it will give.
pub assume_specification[ rand::thread_rng ]() -> (rng: ThreadRng);

/// `SliceRandom::shuffle` of `rand`, on the cards of a deck. It exchanges
/// cards in place and does nothing else, so the deck holds afterwards the
/// cards that it held before, each as often; their order is left open.
#[verifier::external_body]
fn shuffle_with(deck: &mut Vec<Card>, rng: &mut ThreadRng)
    ensures
        final(deck)@.to_multiset() == old(deck)@.to_multiset(),
{
    deck.shuffle(rng);
}

/// Puts the cards of the deck in a random order. Whatever the order, the
/// deck holds the same cards as before.
pub fn shuffle_deck(deck: &mut Vec<Card>)
    ensures
        final(deck)@.to_multiset() == old(deck)@.to_multiset(),
        final(deck)@.len() == old(deck)@.len(),
{
    let mut rng = rand::thread_rng();
    shuffle_with(deck, &mut rng);
    proof {
        old(deck)@.to_multiset_ensures();
        deck@.to_multiset_ensures();
    }
}

/// The number of hands that are dealt at a time.
pub const HANDS_PER_DEAL: usize = 6;

/// The number of cards that a deal takes from the deck.
pub const CARDS_PER_DEAL: usize = 30;

/// The cards of the hand with the given number in a deal from the top of the
/// deck: each hand takes the next five cards.
pub open spec fn dealt(deck: Seq<CardView>, hand: int) -> Seq<CardView> {
    deck.subrange(HAND_SIZE * hand, HAND_SIZE * hand + HAND_SIZE)
}

/// Every card that a deal would take has known symbols.
pub open spec fn deal_is_valid(deck: Seq<CardView>) -> bool {
    forall|i: int| 0 <= i < CARDS_PER_DEAL && i < deck.len() ==> (#[trigger] deck[i]).is_valid()
}

/// Deals six hands of five cards from the top of the deck, which loses those
/// thirty cards. If one of them has an unknown symbol nothing is dealt and
/// the deck stays as it is. The deck must hold thirty cards at least, and
/// their scores must leave room for the scores of evaluation.
pub fn deal_hands(deck: &mut Vec<Card>) -> (deal: Result<Vec<Hand>, HandError>)
    requires
        old(deck)@.len() >= CARDS_PER_DEAL,
        deal_is_valid(views_of(old(deck)@)) ==> forall|k: int|
            0 <= k < HANDS_PER_DEAL ==> scores_fit(
                #[trigger] dealt(views_of(old(deck)@), k),
                category_of(dealt(views_of(old(deck)@), k)),
            ),
    ensures
        match deal {
            Ok(hands) => {
                &&& deal_is_valid(views_of(old(deck)@))
                &&& hands@.len() == HANDS_PER_DEAL
                &&& forall|k: int|
                    0 <= k < HANDS_PER_DEAL ==> (#[trigger] hands@[k])@ == hand_of(
                        dealt(views_of(old(deck)@), k),
                    )
                &&& final(deck)@ == old(deck)@.skip(CARDS_PER_DEAL as int)
            },
            Err(error) => {
                &&& !deal_is_valid(views_of(old(deck)@))
                &&& error == HandError::InvalidCard
                &&& final(deck)@ == old(deck)@
            },
        },
{
    let ghost all = views_of(deck@);
    let mut i: usize = 0;
    while i < CARDS_PER_DEAL
        invariant
            0 <= i <= CARDS_PER_DEAL <= deck@.len(),
            deck@ == old(deck)@,
            all == views_of(deck@),
            forall|j: int| 0 <= j < i ==> (#[trigger] all[j]).is_valid(),
        decreases CARDS_PER_DEAL - i,
    {
        if !deck[i].is_valid() {
            assert(!all[i as int].is_valid());
            return Err(HandError::InvalidCard);
        }
        i += 1;
    }
    let mut hands: Vec<Hand> = Vec::new();
    let mut k: usize = 0;
    while k < HANDS_PER_DEAL
        invariant
            0 <= k <= HANDS_PER_DEAL,
            old(deck)@.len() >= CARDS_PER_DEAL,
            all == views_of(old(deck)@),
            deal_is_valid(all),
            forall|j: int|
                0 <= j < HANDS_PER_DEAL ==> scores_fit(
                    #[trigger] dealt(all, j),
                    category_of(dealt(all, j)),
                ),
            deck@ == old(deck)@.skip(HAND_SIZE * k),
            hands@.len() == k,
            forall|j: int| 0 <= j < k ==> (#[trigger] hands@[j])@ == hand_of(dealt(all, j)),
        decreases HANDS_PER_DEAL - k,
    {
        let mut hand_cards: Vec<Card> = Vec::new();
        let mut m: usize = 0;
        while m < HAND_SIZE
            invariant
                0 <= m <= HAND_SIZE,
                0 <= k < HANDS_PER_DEAL,
                old(deck)@.len() >= CARDS_PER_DEAL,
                deck@ == old(deck)@.skip(HAND_SIZE * k + m),
                hand_cards@ == old(deck)@.subrange(HAND_SIZE * k, HAND_SIZE * k + m),
            decreases HAND_SIZE - m,
        {
            let card = deck.remove(0);
            hand_cards.push(card);
            m += 1;
        }
        proof {
            let given = views_of(hand_cards@);
            assert(given =~= dealt(all, k as int));
            assert forall|j: int| 0 <= j < given.len() implies (#[trigger] given[j]).is_valid() by {
                assert(given[j] == all[HAND_SIZE * k + j]);
            }
        }
        match Hand::new(hand_cards) {
            Ok(hand) => {
                hands.push(hand);
            },
            Err(error) => {
                return Err(error);
            },
        }
        k += 1;
    }
    Ok(hands)
}

/// The cards of a deck written in rows: after every card a space, and the
/// end of the line after every thirteenth card.
pub open spec fn deck_rows(cards: Seq<CardView>) -> Seq<char>
    decreases cards.len(),
{
    if cards.len() == 0 {
        Seq::empty()
    } else {
        deck_rows(cards.drop_last()) + cards.last().identifier() + " "@ + if cards.len()
            % FACES_PER_SUIT as nat == 0 {
            "\n"@
        } else {
            Seq::empty()
        }
    }
}

/// The deck as it is shown: its rows, and the end of the line after a last
/// row that is not full.
pub open spec fn deck_text(cards: Seq<CardView>) -> Seq<char> {
    deck_rows(cards) + if cards.len() % FACES_PER_SUIT as nat != 0 {
        "\n"@
    } else {
        Seq::empty()
    }
}

/// The text that shows the deck, thirteen cards to the line.
pub fn display_deck(deck: &Vec<Card>) -> (text: String)
    ensures
        text@ == deck_text(views_of(deck@)),
{
    let mut text = String::new();
    let ghost all = views_of(deck@);
    let mut index: usize = 0;
    while index < deck.len()
        invariant
            0 <= index <= deck@.len(),
            all == views_of(deck@),
            text@ == deck_rows(all.take(index as int)),
        decreases deck@.len() - index,
    {
        let card = deck[index].to_string();
        proof {
            assert(all.take(index + 1).drop_last() =~= all.take(index as int));
        }
        text.append(card.as_str());
        text.append(" ");
        if (index + 1) % FACES_PER_SUIT == 0 {
            text.append("\n");
        }
        index += 1;
    }
    proof {
        assert(all.take(deck@.len() as int) =~= all);
    }
    if deck.len() % FACES_PER_SUIT != 0 {
        text.append("\n");
    }
    text
}

} // verus!
