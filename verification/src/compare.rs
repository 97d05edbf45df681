//! The comparison of two hands, as a mathematical function, and what holds
//! of it.

use vstd::prelude::*;
use std::cmp::Ordering;
use crate::card::CardView;
use crate::hand::HandView;

verus! {

/// The verdict of the first position at which two sequences of numbers
/// differ: `Greater` if the left number is the larger there, `Less` if it is
/// the smaller, and `Equal` if they differ at no position that both have.
pub open spec fn first_difference(left: Seq<int>, right: Seq<int>) -> Ordering
    decreases left.len(),
{
    if left.len() == 0 || right.len() == 0 {
        Ordering::Equal
    } else if left[0] > right[0] {
        Ordering::Greater
    } else if left[0] < right[0] {
        Ordering::Less
    } else {
        first_difference(left.drop_first(), right.drop_first())
    }
}

/// The numbers by which a hand is compared when the first `key_count`
/// positions count as key cards: the score of each key card, then the suit
/// weight of each remaining card.
pub open spec fn comparison_keys(cards: Seq<CardView>, key_count: int) -> Seq<int> {
    Seq::new(
        cards.len(),
        |i: int|
            if i < key_count {
                cards[i].score
            } else {
                cards[i].weight()
            },
    )
}

/// Whether the two hands have equal scores at every key-card position of the
/// first.
pub open spec fn key_cards_tie(a: HandView, b: HandView) -> bool {
    forall|i: int|
        0 <= i < a.key_cards.len() && i < a.cards.len() && i < b.cards.len() ==> (
        #[trigger] a.cards[i]).score == b.cards[i].score
}

/// How hand `a` stands against hand `b`. The positions of the key cards of
/// `a` are compared by score; if those all tie, the remaining positions are
/// compared by suit weight. The first position that differs decides.
pub open spec fn compare_hands(a: HandView, b: HandView) -> Ordering {
    first_difference(
        comparison_keys(a.cards, a.key_count()),
        comparison_keys(b.cards, a.key_count()),
    )
}

/// The cards with every score replaced by the card's suit weight.
pub open spec fn rescored_by_suit(cards: Seq<CardView>) -> Seq<CardView> {
    cards.map_values(|card: CardView| CardView { score: card.weight(), ..card })
}

/// A hand as a comparison leaves it: untouched where a key card decided,
/// and with suit weights for scores where the key cards tied.
pub open spec fn after_comparison(hand: HandView, rescored: bool) -> HandView {
    if rescored {
        HandView { cards: rescored_by_suit(hand.cards), ..hand }
    } else {
        hand
    }
}

/// Where two sequences agree before a position and differ at it, that
/// position decides.
pub proof fn lemma_first_difference_at(left: Seq<int>, right: Seq<int>, at: int)
    requires
        0 <= at < left.len(),
        at < right.len(),
        forall|i: int| 0 <= i < at ==> left[i] == right[i],
        left[at] != right[at],
    ensures
        first_difference(left, right) == if left[at] > right[at] {
            Ordering::Greater
        } else {
            Ordering::Less
        },
    decreases at,
{
    if at > 0 {
        lemma_first_difference_at(left.drop_first(), right.drop_first(), at - 1);
    }
}

/// Where two sequences of one length agree everywhere, nothing decides.
pub proof fn lemma_first_difference_none(left: Seq<int>, right: Seq<int>)
    requires
        left.len() == right.len(),
        forall|i: int| 0 <= i < left.len() ==> left[i] == right[i],
    ensures
        first_difference(left, right) == Ordering::Equal,
    decreases left.len(),
{
    if left.len() > 0 {
        lemma_first_difference_none(left.drop_first(), right.drop_first());
    }
}

/// Exchanging the two sequences exchanges `Greater` and `Less`.
pub proof fn lemma_first_difference_mirrored(left: Seq<int>, right: Seq<int>)
    ensures
        first_difference(left, right) == Ordering::Greater <==> first_difference(right, left)
            == Ordering::Less,
        first_difference(left, right) == Ordering::Less <==> first_difference(right, left)
            == Ordering::Greater,
        first_difference(left, right) == Ordering::Equal <==> first_difference(right, left)
            == Ordering::Equal,
    decreases left.len(),
{
    if left.len() > 0 && right.len() > 0 && left[0] == right[0] {
        lemma_first_difference_mirrored(left.drop_first(), right.drop_first());
    }
}

/// A hand compared to itself is `Equal`.
pub proof fn lemma_compare_to_itself(hand: HandView)
    ensures
        compare_hands(hand, hand) == Ordering::Equal,
{
    let keys = comparison_keys(hand.cards, hand.key_count());
    lemma_first_difference_none(keys, keys);
}

/// Two pairs of sequences that agree up to a position before which the first
/// pair differs have the same first difference.
pub proof fn lemma_first_difference_early(
    left: Seq<int>,
    right: Seq<int>,
    other_left: Seq<int>,
    other_right: Seq<int>,
    at: int,
)
    requires
        0 <= at < left.len(),
        at < right.len(),
        at < other_left.len(),
        at < other_right.len(),
        forall|i: int| 0 <= i <= at ==> left[i] == other_left[i],
        forall|i: int| 0 <= i <= at ==> right[i] == other_right[i],
        left[at] != right[at],
    ensures
        first_difference(left, right) == first_difference(other_left, other_right),
    decreases at,
{
    if left[0] == right[0] {
        lemma_first_difference_early(
            left.drop_first(),
            right.drop_first(),
            other_left.drop_first(),
            other_right.drop_first(),
            at - 1,
        );
    }
}

/// Whether the two hands have different scores at a position that holds a
/// key card in both.
pub open spec fn key_cards_decide(a: HandView, b: HandView) -> bool {
    exists|i: int|
        0 <= i < a.key_count() && i < b.key_count() && i < a.cards.len() && i < b.cards.len() && (
        #[trigger] a.cards[i]).score != b.cards[i].score
}

/// Comparison is antisymmetric between two hands that have the same number
/// of key cards, or that differ in score at a position that holds a key card
/// in both: one is `Greater` than the other exactly when the other is `Less`
/// than it, and `Equal` to it exactly when the other is `Equal` to it.
/// Between other hands each comparison walks the key cards of its own
/// receiver, and the two need not agree.
pub proof fn lemma_compare_antisymmetric(a: HandView, b: HandView)
    requires
        a.key_cards.len() == b.key_cards.len() || key_cards_decide(a, b),
    ensures
        compare_hands(a, b) == Ordering::Greater <==> compare_hands(b, a) == Ordering::Less,
        compare_hands(a, b) == Ordering::Less <==> compare_hands(b, a) == Ordering::Greater,
        compare_hands(a, b) == Ordering::Equal <==> compare_hands(b, a) == Ordering::Equal,
{
    let mine = comparison_keys(a.cards, a.key_count());
    let theirs = comparison_keys(b.cards, a.key_count());
    let mine_back = comparison_keys(a.cards, b.key_count());
    let theirs_back = comparison_keys(b.cards, b.key_count());
    lemma_first_difference_mirrored(theirs_back, mine_back);
    if a.key_cards.len() != b.key_cards.len() {
        let at = choose|i: int|
            0 <= i < a.key_count() && i < b.key_count() && i < a.cards.len() && i < b.cards.len()
                && (#[trigger] a.cards[i]).score != b.cards[i].score;
        lemma_first_difference_early(mine, theirs, mine_back, theirs_back, at);
    }
}

} // verus!
