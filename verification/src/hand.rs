//! A hand of five cards: its canonical order, its category, the scores of
//! its cards and the comparison of two hands.

use std::cmp::Ordering;
use vstd::prelude::*;
use vstd::seq_lib::to_multiset_contains;
use crate::arrange::{
    alone, in_group, key_cards_of, kickers_of, lemma_ordered_cards_permute, ordered_cards_of,
    separate_key_cards_and_kickers, sort_hand,
};
use crate::card::{Card, CardView, by_sort_key, identities, views_of};
use crate::category::{
    HandCategory, category_of, lemma_category_ignores_order, lemma_count_rank_ignores_order,
};
use crate::compare::{
    after_comparison, compare_hands, comparison_keys, key_cards_tie, lemma_first_difference_at,
    lemma_first_difference_none,
};
use crate::error::HandError;
use crate::order::{
    lemma_map_keeps_items, lemma_sort_desc_ordered, lemma_sort_desc_permutes, ordered_desc,
};
use crate::score::{
    card_score, evaluate_hand, lemma_scored_keeps_identities, rescore_by_suit, scored, scores_fit,
};
use crate::text::{ToStringCustom, append_part, joined, lemma_joined_push, pad_to_width, padded};

verus! {

/// The number of cards in a hand.
pub const HAND_SIZE: usize = 5;

/// Five cards with known symbols.
pub open spec fn playable(cards: Seq<CardView>) -> bool {
    &&& cards.len() == HAND_SIZE
    &&& forall|i: int| 0 <= i < cards.len() ==> (#[trigger] cards[i]).is_valid()
}

/// Five cards in their canonical order, with their category and the parts
/// that the order is made of.
#[derive(Debug)]
pub struct Hand {
    cards: Vec<Card>,
    unsorted: Vec<Card>,
    category: HandCategory,
    key_cards: Vec<Card>,
    kickers: Vec<Card>,
}

/// The mathematical content of a [`Hand`].
pub struct HandView {
    /// The cards in canonical order, with their scores.
    pub cards: Seq<CardView>,
    /// The cards as they were dealt, kept for display.
    pub unsorted: Seq<CardView>,
    /// The category of the hand.
    pub category: HandCategory,
    /// The cards of a rank that occurs more than once, in descending order.
    pub key_cards: Seq<CardView>,
    /// The cards of a rank that occurs once, in descending order.
    pub kickers: Seq<CardView>,
}

impl HandView {
    /// The number of key cards.
    pub open spec fn key_count(self) -> int {
        self.key_cards.len() as int
    }

    /// What holds of every hand: it has five valid cards, its category is
    /// that of its cards, its cards are its key cards followed by its
    /// kickers, the key cards are exactly the cards of a repeated rank, and
    /// each part is in descending order.
    pub open spec fn well_formed(self) -> bool {
        &&& playable(self.cards)
        &&& self.category == category_of(self.cards)
        &&& identities(self.key_cards + self.kickers) == identities(self.cards)
        &&& forall|i: int|
            0 <= i < self.cards.len() ==> (i < self.key_cards.len()) == in_group(self.cards)(
                #[trigger] self.cards[i],
            )
        &&& ordered_desc(self.key_cards, by_sort_key())
        &&& ordered_desc(self.kickers, by_sort_key())
    }
}

/// The hand that is made of the given cards: ordered, classified and scored.
pub open spec fn hand_of(cards: Seq<CardView>) -> HandView {
    HandView {
        cards: scored(ordered_cards_of(cards), category_of(cards)),
        unsorted: cards,
        category: category_of(cards),
        key_cards: key_cards_of(cards),
        kickers: kickers_of(cards),
    }
}

/// The hand made of five valid cards is well formed.
pub proof fn lemma_hand_of_well_formed(cards: Seq<CardView>)
    requires
        playable(cards),
    ensures
        hand_of(cards).well_formed(),
{
    let hand = hand_of(cards);
    let ordered = ordered_cards_of(cards);
    let keys = cards.filter(in_group(cards));
    let rest = cards.filter(alone(cards));
    lemma_ordered_cards_permute(cards);
    lemma_scored_keeps_identities(ordered, category_of(cards));
    lemma_map_keeps_items(ordered, cards, |c: CardView| c.identity());
    lemma_category_ignores_order(hand.cards, cards);
    lemma_sort_desc_permutes(keys, by_sort_key());
    lemma_sort_desc_permutes(rest, by_sort_key());
    lemma_sort_desc_ordered(keys, by_sort_key());
    lemma_sort_desc_ordered(rest, by_sort_key());
    assert forall|i: int| 0 <= i < hand.cards.len() implies (#[trigger] hand.cards[i]).is_valid()
        && (i < hand.key_cards.len()) == in_group(hand.cards)(hand.cards[i]) by {
        let card = ordered[i];
        to_multiset_contains(ordered, card);
        to_multiset_contains(cards, card);
        lemma_count_rank_ignores_order(hand.cards, cards, card.rank());
        if i < hand.key_cards.len() {
            let sorted = key_cards_of(cards);
            to_multiset_contains(sorted, card);
            to_multiset_contains(keys, card);
            let at = choose|at: int| 0 <= at < keys.len() && keys[at] == card;
            cards.lemma_filter_pred(in_group(cards), at);
        } else {
            let sorted = kickers_of(cards);
            to_multiset_contains(sorted, card);
            to_multiset_contains(rest, card);
            let at = choose|at: int| 0 <= at < rest.len() && rest[at] == card;
            cards.lemma_filter_pred(alone(cards), at);
        }
    }
}

/// Replacing scores by suit weights leaves a hand well formed.
pub proof fn lemma_rescoring_keeps_well_formed(hand: HandView)
    requires
        hand.well_formed(),
    ensures
        after_comparison(hand, true).well_formed(),
{
    let after = after_comparison(hand, true);
    assert(identities(after.cards) =~= identities(hand.cards));
    lemma_category_ignores_order(after.cards, hand.cards);
    assert forall|i: int| 0 <= i < after.cards.len() implies (#[trigger] after.cards[i]).is_valid()
        && (i < after.key_cards.len()) == in_group(after.cards)(after.cards[i]) by {
        lemma_count_rank_ignores_order(after.cards, hand.cards, hand.cards[i].rank());
    }
}

impl View for Hand {
    type V = HandView;

    /// The views of the cards that the hand holds, part by part.
    closed spec fn view(&self) -> HandView {
        HandView {
            cards: views_of(self.cards@),
            unsorted: views_of(self.unsorted@),
            category: self.category,
            key_cards: views_of(self.key_cards@),
            kickers: views_of(self.kickers@),
        }
    }
}

/// The views of a sequence of hands, position by position.
pub open spec fn hand_views(hands: Seq<Hand>) -> Seq<HandView> {
    hands.map_values(|hand: Hand| hand@)
}

/// The tier of a hand's category as a function, for sorting.
pub open spec fn by_tier() -> spec_fn(HandView) -> int {
    |hand: HandView| hand.category.spec_tier()
}

/// The identifier of every card, position by position.
pub open spec fn identifiers(cards: Seq<CardView>) -> Seq<Seq<char>> {
    cards.map_values(|card: CardView| card.identifier())
}

/// The identifier of every card, padded to three characters.
pub open spec fn padded_identifiers(cards: Seq<CardView>) -> Seq<Seq<char>> {
    cards.map_values(|card: CardView| padded(card.identifier(), 3))
}

impl ToStringCustom for Hand {
    /// The identifiers of the cards in canonical order, with a comma and a
    /// space between each two.
    open spec fn custom_text(&self) -> Seq<char> {
        joined(identifiers(self@.cards), ", "@)
    }

    fn to_string(&self) -> (text: String) {
        let mut text = String::new();
        let ghost all = identifiers(views_of(self.cards@));
        let mut i: usize = 0;
        while i < self.cards.len()
            invariant
                0 <= i <= self.cards@.len(),
                all == identifiers(views_of(self.cards@)),
                text@ == joined(all.take(i as int), ", "@),
            decreases self.cards@.len() - i,
        {
            let part = self.cards[i].to_string();
            proof {
                lemma_joined_push(all.take(i as int), ", "@, part@);
                assert(all.take(i + 1) =~= all.take(i as int).push(part@));
            }
            append_part(&mut text, i, ", ", part.as_str());
            i += 1;
        }
        proof {
            assert(all.take(self.cards@.len() as int) =~= all);
        }
        text
    }
}

/// Whether every card has known symbols.
pub fn all_valid(cards: &Vec<Card>) -> (valid: bool)
    ensures
        valid == forall|i: int|
            0 <= i < cards@.len() ==> (#[trigger] views_of(cards@)[i]).is_valid(),
{
    let mut i: usize = 0;
    while i < cards.len()
        invariant
            0 <= i <= cards@.len(),
            forall|j: int| 0 <= j < i ==> (#[trigger] views_of(cards@)[j]).is_valid(),
        decreases cards@.len() - i,
    {
        if !cards[i].is_valid() {
            assert(!views_of(cards@)[i as int].is_valid());
            return false;
        }
        i += 1;
    }
    true
}

impl Hand {
    /// Every hand is well formed, at all times.
    #[verifier::type_invariant]
    closed spec fn inv(self) -> bool {
        self@.well_formed()
    }

    /// The hand made of the given cards. It is refused unless there are
    /// exactly five cards, and then unless every card has known symbols.
    /// The scores that the cards come with must leave room for the scores of
    /// evaluation, which are added to them.
    pub fn new(cards: Vec<Card>) -> (made: Result<Hand, HandError>)
        requires
            playable(views_of(cards@)) ==> scores_fit(
                views_of(cards@),
                category_of(views_of(cards@)),
            ),
        ensures
            match made {
                Ok(hand) => playable(views_of(cards@)) && hand@ == hand_of(views_of(cards@))
                    && hand@.well_formed(),
                Err(error) => !playable(views_of(cards@)) && error == if cards@.len()
                    != HAND_SIZE {
                    HandError::InvalidHandSize
                } else {
                    HandError::InvalidCard
                },
            },
    {
        if cards.len() != HAND_SIZE {
            return Err(HandError::InvalidHandSize);
        }
        if !all_valid(&cards) {
            return Err(HandError::InvalidCard);
        }
        let ghost given = views_of(cards@);
        let (mut key_cards, mut kickers) = separate_key_cards_and_kickers(&cards);
        let mut ordered = sort_hand(&mut key_cards, &mut kickers);
        proof {
            lemma_ordered_cards_permute(given);
            lemma_map_keeps_items(views_of(ordered@), given, |c: CardView| c.identity());
            lemma_category_ignores_order(views_of(ordered@), given);
            assert forall|i: int| 0 <= i < ordered@.len() implies (#[trigger] views_of(
                ordered@,
            )[i]).score + card_score(category_of(given), views_of(ordered@)[i]) <= u64::MAX by {
                let card = views_of(ordered@)[i];
                to_multiset_contains(views_of(ordered@), card);
                to_multiset_contains(given, card);
            }
        }
        let category = evaluate_hand(&mut ordered);
        proof {
            lemma_hand_of_well_formed(given);
        }
        Ok(Hand { cards: ordered, unsorted: cards, category, key_cards, kickers })
    }

    /// Compares this hand to another. The positions of this hand's key cards
    /// are compared by score, and the first that differs decides. If they all
    /// tie, the scores of all cards of both hands are replaced by the cards'
    /// suit weights, and the remaining positions are compared by those.
    pub fn compare_to(&mut self, other: &mut Self) -> (outcome: Ordering)
        ensures
            outcome == compare_hands(old(self)@, old(other)@),
            final(self)@ == after_comparison(
                old(self)@,
                key_cards_tie(old(self)@, old(other)@),
            ),
            final(other)@ == after_comparison(
                old(other)@,
                key_cards_tie(old(self)@, old(other)@),
            ),
    {
        proof {
            use_type_invariant(&*self);
            use_type_invariant(&*other);
        }
        let ghost mine = self@;
        let ghost theirs = other@;
        let ghost left = comparison_keys(mine.cards, mine.key_count());
        let ghost right = comparison_keys(theirs.cards, mine.key_count());
        proof {
            assert(identities(mine.key_cards + mine.kickers).len() == HAND_SIZE);
        }
        let key_count: usize = self.key_cards.len();
        let mut i: usize = 0;
        let ghost mut at: int = 0;
        while i < key_count
            invariant
                at == i,
                0 <= i <= key_count <= HAND_SIZE,
                key_count == mine.key_count(),
                self@ == mine,
                other@ == theirs,
                mine == old(self)@,
                theirs == old(other)@,
                mine.cards.len() == HAND_SIZE,
                theirs.cards.len() == HAND_SIZE,
                left == comparison_keys(mine.cards, mine.key_count()),
                right == comparison_keys(theirs.cards, mine.key_count()),
                forall|j: int|
                    0 <= j < i ==> (#[trigger] mine.cards[j]).score == theirs.cards[j].score,
            decreases key_count - i,
        {
            let my_score: u64 = self.cards[i].get_hand_value();
            let their_score: u64 = other.cards[i].get_hand_value();
            if my_score != their_score {
                proof {
                    lemma_first_difference_at(left, right, at);
                }
                if my_score > their_score {
                    return Ordering::Greater;
                } else {
                    return Ordering::Less;
                }
            }
            i += 1;
            proof {
                at = at + 1;
            }
        }
        let my_cards = rescore_by_suit(&self.cards);
        let their_cards = rescore_by_suit(&other.cards);
        proof {
            lemma_rescoring_keeps_well_formed(mine);
            lemma_rescoring_keeps_well_formed(theirs);
        }
        self.cards = my_cards;
        other.cards = their_cards;
        while i < HAND_SIZE
            invariant
                at == i,
                key_count <= i <= HAND_SIZE,
                key_count == mine.key_count(),
                self@ == after_comparison(mine, true),
                other@ == after_comparison(theirs, true),
                mine == old(self)@,
                theirs == old(other)@,
                key_cards_tie(mine, theirs),
                mine.cards.len() == HAND_SIZE,
                theirs.cards.len() == HAND_SIZE,
                self.cards@.len() == HAND_SIZE,
                other.cards@.len() == HAND_SIZE,
                left == comparison_keys(mine.cards, mine.key_count()),
                right == comparison_keys(theirs.cards, mine.key_count()),
                forall|j: int| 0 <= j < i ==> left[j] == right[j],
            decreases HAND_SIZE - i,
        {
            let my_score: u64 = self.cards[i].get_hand_value();
            let their_score: u64 = other.cards[i].get_hand_value();
            proof {
                assert(self@.cards[at] == self.cards@[at]@);
                assert(other@.cards[at] == other.cards@[at]@);
            }
            if my_score != their_score {
                proof {
                    lemma_first_difference_at(left, right, at);
                }
                if my_score > their_score {
                    return Ordering::Greater;
                } else {
                    return Ordering::Less;
                }
            }
            i += 1;
            proof {
                at = at + 1;
            }
        }
        proof {
            lemma_first_difference_none(left, right);
        }
        Ordering::Equal
    }

    /// The hand as it was dealt: the identifier of every card, padded to
    /// three characters, with a space between each two.
    pub fn to_string(&self) -> (text: String)
        ensures
            text@ == joined(padded_identifiers(self@.unsorted), " "@),
    {
        let mut text = String::new();
        let ghost all = padded_identifiers(views_of(self.unsorted@));
        let mut i: usize = 0;
        while i < self.unsorted.len()
            invariant
                0 <= i <= self.unsorted@.len(),
                all == padded_identifiers(views_of(self.unsorted@)),
                text@ == joined(all.take(i as int), " "@),
            decreases self.unsorted@.len() - i,
        {
            let part = pad_to_width(self.unsorted[i].to_string(), 3);
            proof {
                lemma_joined_push(all.take(i as int), " "@, part@);
                assert(all.take(i + 1) =~= all.take(i as int).push(part@));
            }
            append_part(&mut text, i, " ", part.as_str());
            i += 1;
        }
        proof {
            assert(all.take(self.unsorted@.len() as int) =~= all);
        }
        text
    }

    /// The cards in canonical order, with their scores.
    pub fn get_cards(&self) -> (cards: &Vec<Card>)
        ensures
            views_of(cards@) == self@.cards,
            cards@.len() == HAND_SIZE,
            self@.well_formed(),
    {
        proof {
            use_type_invariant(self);
        }
        &self.cards
    }

    /// The cards in the order in which they were dealt.
    pub fn get_unsorted_cards(&self) -> (cards: &Vec<Card>)
        ensures
            views_of(cards@) == self@.unsorted,
    {
        &self.unsorted
    }

    /// Replaces the cards that are kept for display; the hand is otherwise
    /// unchanged.
    pub fn set_unsorted(&mut self, card_list: Vec<Card>)
        ensures
            final(self)@ == (HandView { unsorted: views_of(card_list@), ..old(self)@ }),
    {
        proof {
            use_type_invariant(&*self);
        }
        self.unsorted = card_list;
    }

    /// The name of the category of the hand.
    pub fn get_hand_type(&self) -> (name: &str)
        ensures
            name@ == self@.category.spec_label(),
    {
        self.category.label()
    }

    /// The category of the hand.
    pub fn category(&self) -> (category: HandCategory)
        ensures
            category == self@.category,
            category == category_of(self@.cards),
    {
        proof {
            use_type_invariant(self);
        }
        self.category
    }

    /// The cards of a rank that occurs more than once, in descending order.
    pub fn get_key_cards(&self) -> (cards: &Vec<Card>)
        ensures
            views_of(cards@) == self@.key_cards,
            cards@.len() <= HAND_SIZE,
    {
        proof {
            use_type_invariant(self);
            assert(identities(self@.key_cards + self@.kickers).len() == HAND_SIZE);
        }
        &self.key_cards
    }

    /// The cards of a rank that occurs once, in descending order.
    pub fn get_kickers(&self) -> (cards: &Vec<Card>)
        ensures
            views_of(cards@) == self@.kickers,
            cards@.len() <= HAND_SIZE,
    {
        proof {
            use_type_invariant(self);
            assert(identities(self@.key_cards + self@.kickers).len() == HAND_SIZE);
        }
        &self.kickers
    }
}

} // verus!
