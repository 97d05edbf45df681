//! The scores that evaluation puts on the cards of a hand.

use vstd::prelude::*;
use crate::card::{Card, CardView, TENTHS_PER_POINT, identities, lemma_symbol_ranges, views_of};
use crate::category::{
    HandCategory, category_of, contains_n_of_a_kind, count_pairs, count_rank, face_counts,
    has_group, is_flush, is_straight, lemma_slots_are_groups,
};
use crate::compare::rescored_by_suit;

verus! {

/// The most that evaluation adds to the score of one card, in tenths: the
/// ace of spades in a royal flush.
pub const MAX_CARD_SCORE: u64 = 10144;

/// The score of a card in tenths: the base value and the rank of the card,
/// both in points, and the suit weight of the card where it counts.
pub open spec fn score_for(base_value: int, counts_suit: bool, card: CardView) -> int {
    TENTHS_PER_POINT * (base_value + card.rank()) + if counts_suit {
        card.weight()
    } else {
        0
    }
}

/// What evaluation adds to the score of a card in a hand of the given
/// category: the score for the base value of the category, with the suit
/// weight unless the category leaves it out.
pub open spec fn card_score(category: HandCategory, card: CardView) -> int {
    score_for(category.spec_base_value(), category.spec_counts_suit(), card)
}

/// A card with the score of evaluation added to what it had.
pub open spec fn with_score_added(category: HandCategory) -> spec_fn(CardView) -> CardView {
    |card: CardView| CardView { score: card.score + card_score(category, card), ..card }
}

/// The cards, each with the score of evaluation added.
pub open spec fn scored(cards: Seq<CardView>, category: HandCategory) -> Seq<CardView> {
    cards.map_values(with_score_added(category))
}

/// Every card can take the score that a hand of the given category adds to
/// it without leaving the range of the machine's numbers.
pub open spec fn scores_fit(cards: Seq<CardView>, category: HandCategory) -> bool {
    forall|i: int|
        0 <= i < cards.len() ==> (#[trigger] cards[i]).score + card_score(category, cards[i])
            <= u64::MAX
}

/// Every card can take the largest score of evaluation.
pub open spec fn room_for_scores(cards: Seq<CardView>) -> bool {
    forall|i: int| 0 <= i < cards.len() ==> (#[trigger] cards[i]).score + MAX_CARD_SCORE <= u64::MAX
}

/// No category adds more to a card than the largest score of evaluation, so
/// cards with room for that have room for the score of any category.
pub proof fn lemma_room_is_enough(cards: Seq<CardView>, category: HandCategory)
    requires
        room_for_scores(cards),
    ensures
        scores_fit(cards, category),
{
    assert forall|i: int| 0 <= i < cards.len() implies (#[trigger] cards[i]).score + card_score(
        category,
        cards[i],
    ) <= u64::MAX by {
        lemma_symbol_ranges(cards[i]);
    }
}

/// Whether every card can take the largest score of evaluation, and so the
/// score of whatever category the cards fall in.
pub fn has_room_for_scores(cards: &Vec<Card>) -> (room: bool)
    ensures
        room == room_for_scores(views_of(cards@)),
        room ==> forall|category: HandCategory| #[trigger] scores_fit(views_of(cards@), category),
{
    let mut i: usize = 0;
    while i < cards.len()
        invariant
            0 <= i <= cards@.len(),
            forall|j: int|
                0 <= j < i ==> (#[trigger] views_of(cards@)[j]).score + MAX_CARD_SCORE <= u64::MAX,
        decreases cards@.len() - i,
    {
        if cards[i].get_hand_value() > u64::MAX - MAX_CARD_SCORE {
            assert(views_of(cards@)[i as int].score + MAX_CARD_SCORE > u64::MAX);
            return false;
        }
        i += 1;
    }
    proof {
        assert forall|category: HandCategory| #[trigger]
            scores_fit(views_of(cards@), category) by {
            lemma_room_is_enough(views_of(cards@), category);
        }
    }
    true
}

/// Scoring changes no card's symbols.
pub proof fn lemma_scored_keeps_identities(cards: Seq<CardView>, category: HandCategory)
    ensures
        identities(scored(cards, category)) == identities(cards),
        scored(cards, category).len() == cards.len(),
{
}

/// Adds to the score of every card the base value and the card's rank, in
/// points, and the card's suit weight unless the category leaves it out. The
/// scores that the cards come with must leave room for that.
pub fn set_hand_value_to_cards(cards: &mut Vec<Card>, category: HandCategory, base_value: u64)
    requires
        forall|i: int|
            0 <= i < old(cards)@.len() ==> (#[trigger] old(cards)@[i])@.score + score_for(
                base_value as int,
                category.spec_counts_suit(),
                old(cards)@[i]@,
            ) <= u64::MAX,
    ensures
        final(cards)@.len() == old(cards)@.len(),
        forall|i: int|
            0 <= i < old(cards)@.len() ==> (#[trigger] final(cards)@[i])@ == (CardView {
                score: old(cards)@[i]@.score + score_for(
                    base_value as int,
                    category.spec_counts_suit(),
                    old(cards)@[i]@,
                ),
                ..old(cards)@[i]@
            }),
{
    let mut i: usize = 0;
    while i < cards.len()
        invariant
            0 <= i <= cards@.len(),
            cards@.len() == old(cards)@.len(),
            forall|j: int|
                0 <= j < old(cards)@.len() ==> (#[trigger] old(cards)@[j])@.score + score_for(
                    base_value as int,
                    category.spec_counts_suit(),
                    old(cards)@[j]@,
                ) <= u64::MAX,
            forall|j: int| i <= j < cards@.len() ==> cards@[j] == old(cards)@[j],
            forall|j: int|
                0 <= j < i ==> (#[trigger] cards@[j])@ == (CardView {
                    score: old(cards)@[j]@.score + score_for(
                        base_value as int,
                        category.spec_counts_suit(),
                        old(cards)@[j]@,
                    ),
                    ..old(cards)@[j]@
                }),
        decreases cards@.len() - i,
    {
        let points: u64 = base_value + cards[i].face_value();
        let hand_value: u64 = if category.counts_suit() {
            TENTHS_PER_POINT * points + cards[i].suit_value()
        } else {
            TENTHS_PER_POINT * points
        };
        proof {
            assert(views_of(old(cards)@)[i as int] == old(cards)@[i as int]@);
        }
        cards[i].set_hand_value(hand_value);
        i += 1;
    }
}

/// Classifies the cards and adds to each of them the score that the category
/// gives it. The scores that the cards come with must leave room for that.
pub fn evaluate_hand(cards: &mut Vec<Card>) -> (category: HandCategory)
    requires
        scores_fit(views_of(old(cards)@), category_of(views_of(old(cards)@))),
    ensures
        category == category_of(views_of(old(cards)@)),
        views_of(final(cards)@) == scored(views_of(old(cards)@), category),
{
    let ghost all = views_of(cards@);
    let face_counts = face_counts(cards);
    let is_flush = is_flush(cards);
    let is_straight = is_straight(cards);
    proof {
        assert forall|i: int| 0 <= i < cards@.len() implies (#[trigger] cards@[i])@.score
            + card_score(category_of(all), cards@[i]@) <= u64::MAX by {
            assert(all[i] == cards@[i]@);
        }
        lemma_slots_are_groups(face_counts@, all, 2, 15);
        assert forall|size: int| has_group(all, size) == (exists|rank: int|
            0 <= rank < face_counts@.len() && face_counts@[rank] == size) by {
            if has_group(all, size) {
                let rank = choose|rank: int| 0 <= rank < 15 && count_rank(all, rank) == size;
                assert(face_counts@[rank] == size);
            }
            if exists|rank: int| 0 <= rank < face_counts@.len() && face_counts@[rank] == size {
                let rank = choose|rank: int|
                    0 <= rank < face_counts@.len() && face_counts@[rank] == size;
            }
        }
    }
    let category = if is_flush && is_straight {
        if face_counts[14] > 0 && face_counts[13] > 0 {
            set_hand_value_to_cards(cards, HandCategory::RoyalFlush, 1000);
            HandCategory::RoyalFlush
        } else {
            set_hand_value_to_cards(cards, HandCategory::StraightFlush, 900);
            HandCategory::StraightFlush
        }
    } else if contains_n_of_a_kind(&face_counts, 4) {
        set_hand_value_to_cards(cards, HandCategory::FourOfAKind, 800);
        HandCategory::FourOfAKind
    } else if contains_n_of_a_kind(&face_counts, 3) && contains_n_of_a_kind(&face_counts, 2) {
        set_hand_value_to_cards(cards, HandCategory::FullHouse, 700);
        HandCategory::FullHouse
    } else if is_flush {
        set_hand_value_to_cards(cards, HandCategory::Flush, 600);
        HandCategory::Flush
    } else if is_straight {
        set_hand_value_to_cards(cards, HandCategory::Straight, 500);
        HandCategory::Straight
    } else if contains_n_of_a_kind(&face_counts, 3) {
        set_hand_value_to_cards(cards, HandCategory::ThreeOfAKind, 400);
        HandCategory::ThreeOfAKind
    } else if count_pairs(&face_counts) == 2 {
        set_hand_value_to_cards(cards, HandCategory::TwoPair, 300);
        HandCategory::TwoPair
    } else if contains_n_of_a_kind(&face_counts, 2) {
        set_hand_value_to_cards(cards, HandCategory::OnePair, 200);
        HandCategory::OnePair
    } else {
        set_hand_value_to_cards(cards, HandCategory::HighCard, 100);
        HandCategory::HighCard
    };
    category
}

/// Copies of the cards with every score replaced by the card's suit weight.
pub fn rescore_by_suit(cards: &Vec<Card>) -> (rescored: Vec<Card>)
    ensures
        views_of(rescored@) == rescored_by_suit(views_of(cards@)),
{
    let mut rescored: Vec<Card> = Vec::new();
    let mut i: usize = 0;
    while i < cards.len()
        invariant
            0 <= i <= cards@.len(),
            views_of(rescored@) == rescored_by_suit(views_of(cards@)).take(i as int),
        decreases cards@.len() - i,
    {
        let mut card = cards[i].clone();
        card.hand_value = card.suit_value();
        proof {
            assert(rescored_by_suit(views_of(cards@)).take(i + 1) =~= rescored_by_suit(
                views_of(cards@),
            ).take(i as int).push(card@));
        }
        rescored.push(card);
        i += 1;
    }
    rescored
}

} // verus!
