//! The ten hand categories and the rules that assign one to five cards.

use vstd::prelude::*;
use vstd::seq_lib::{to_multiset_contains, to_multiset_len, to_multiset_remove};
use crate::card::{Card, CardView, identities, lemma_symbol_ranges, views_of};

verus! {

/// The category of a hand, listed from the weakest to the strongest.
#[derive(Clone, Copy, Debug, PartialEq, Eq, Structural)]
pub enum HandCategory {
    HighCard,
    OnePair,
    TwoPair,
    ThreeOfAKind,
    Straight,
    Flush,
    FullHouse,
    FourOfAKind,
    StraightFlush,
    RoyalFlush,
}

impl HandCategory {
    /// The place of the category in the order of strength, 1 for the weakest.
    pub open spec fn spec_tier(self) -> int {
        match self {
            HandCategory::HighCard => 1,
            HandCategory::OnePair => 2,
            HandCategory::TwoPair => 3,
            HandCategory::ThreeOfAKind => 4,
            HandCategory::Straight => 5,
            HandCategory::Flush => 6,
            HandCategory::FullHouse => 7,
            HandCategory::FourOfAKind => 8,
            HandCategory::StraightFlush => 9,
            HandCategory::RoyalFlush => 10,
        }
    }

    /// The points that every card of a hand of this category starts from:
    /// one hundred for each tier.
    pub open spec fn spec_base_value(self) -> int {
        100 * self.spec_tier()
    }

    /// The name under which the category is shown.
    pub open spec fn spec_label(self) -> Seq<char> {
        match self {
            HandCategory::HighCard => "High Card"@,
            HandCategory::OnePair => "One Pair"@,
            HandCategory::TwoPair => "Two Pair"@,
            HandCategory::ThreeOfAKind => "Three of a Kind"@,
            HandCategory::Straight => "Straight"@,
            HandCategory::Flush => "Flush"@,
            HandCategory::FullHouse => "Full House"@,
            HandCategory::FourOfAKind => "Four of a Kind"@,
            HandCategory::StraightFlush => "Straight Flush"@,
            HandCategory::RoyalFlush => "Royal Flush"@,
        }
    }

    /// Whether the suit weight is part of a card's score in this category.
    /// It is left out for one pair and two pair.
    pub open spec fn spec_counts_suit(self) -> bool {
        self != HandCategory::OnePair && self != HandCategory::TwoPair
    }

    pub fn tier(self) -> (tier: u64)
        ensures
            tier == self.spec_tier(),
            1 <= tier <= 10,
    {
        match self {
            HandCategory::HighCard => 1,
            HandCategory::OnePair => 2,
            HandCategory::TwoPair => 3,
            HandCategory::ThreeOfAKind => 4,
            HandCategory::Straight => 5,
            HandCategory::Flush => 6,
            HandCategory::FullHouse => 7,
            HandCategory::FourOfAKind => 8,
            HandCategory::StraightFlush => 9,
            HandCategory::RoyalFlush => 10,
        }
    }

    pub fn base_value(self) -> (points: u64)
        ensures
            points == self.spec_base_value(),
            100 <= points <= 1000,
    {
        100 * self.tier()
    }

    pub fn label(self) -> (name: &'static str)
        ensures
            name@ == self.spec_label(),
    {
        match self {
            HandCategory::HighCard => "High Card",
            HandCategory::OnePair => "One Pair",
            HandCategory::TwoPair => "Two Pair",
            HandCategory::ThreeOfAKind => "Three of a Kind",
            HandCategory::Straight => "Straight",
            HandCategory::Flush => "Flush",
            HandCategory::FullHouse => "Full House",
            HandCategory::FourOfAKind => "Four of a Kind",
            HandCategory::StraightFlush => "Straight Flush",
            HandCategory::RoyalFlush => "Royal Flush",
        }
    }

    #[verifier::when_used_as_spec(spec_counts_suit)]
    pub fn counts_suit(self) -> (counted: bool)
        ensures
            counted == self.spec_counts_suit(),
    {
        match self {
            HandCategory::OnePair => false,
            HandCategory::TwoPair => false,
            _ => true,
        }
    }
}

/// The number of slots in a table of rank frequencies: one for each ordinal
/// from 0 to 14.
pub const RANK_SLOTS: usize = 15;

/// How many of the cards have the given rank.
pub open spec fn count_rank(cards: Seq<CardView>, rank: int) -> nat
    decreases cards.len(),
{
    if cards.len() == 0 {
        0
    } else {
        count_rank(cards.drop_last(), rank) + if cards.last().rank() == rank {
            1nat
        } else {
            0nat
        }
    }
}

/// All cards share the suit symbol of the first.
pub open spec fn flush(cards: Seq<CardView>) -> bool {
    forall|i: int| 0 <= i < cards.len() ==> (#[trigger] cards[i]).suit == cards[0].suit
}

/// Each of the five ranks from `low` upwards occurs exactly once.
pub open spec fn run_from(cards: Seq<CardView>, low: int) -> bool {
    forall|rank: int| low <= rank < low + 5 ==> #[trigger] count_rank(cards, rank) == 1
}

/// The ranks are exactly ace, two, three, four and five: the ace plays low.
pub open spec fn low_ace_run(cards: Seq<CardView>) -> bool {
    &&& count_rank(cards, 14) == 1
    &&& count_rank(cards, 2) == 1
    &&& count_rank(cards, 3) == 1
    &&& count_rank(cards, 4) == 1
    &&& count_rank(cards, 5) == 1
}

/// Five cards whose ranks, put in ascending order, are five consecutive
/// ordinals, or the low-ace run.
pub open spec fn straight(cards: Seq<CardView>) -> bool {
    &&& cards.len() == 5
    &&& (exists|low: int| run_from(cards, low)) || low_ace_run(cards)
}

/// Some rank occurs exactly `size` times.
pub open spec fn has_group(cards: Seq<CardView>, size: int) -> bool {
    exists|rank: int| 0 <= rank < 15 && #[trigger] count_rank(cards, rank) == size
}

/// The number of ranks below `below` that occur exactly `size` times.
pub open spec fn groups_below(cards: Seq<CardView>, size: int, below: int) -> nat
    decreases below,
{
    if below <= 0 {
        0
    } else {
        groups_below(cards, size, below - 1) + if count_rank(cards, below - 1) == size {
            1nat
        } else {
            0nat
        }
    }
}

/// The number of ranks that occur exactly twice.
pub open spec fn pair_count(cards: Seq<CardView>) -> nat {
    groups_below(cards, 2, 15)
}

/// The category of the cards. The tests are made in this order and the first
/// that holds decides.
pub open spec fn category_of(cards: Seq<CardView>) -> HandCategory {
    if flush(cards) && straight(cards) {
        if count_rank(cards, 14) > 0 && count_rank(cards, 13) > 0 {
            HandCategory::RoyalFlush
        } else {
            HandCategory::StraightFlush
        }
    } else if has_group(cards, 4) {
        HandCategory::FourOfAKind
    } else if has_group(cards, 3) && has_group(cards, 2) {
        HandCategory::FullHouse
    } else if flush(cards) {
        HandCategory::Flush
    } else if straight(cards) {
        HandCategory::Straight
    } else if has_group(cards, 3) {
        HandCategory::ThreeOfAKind
    } else if pair_count(cards) == 2 {
        HandCategory::TwoPair
    } else if has_group(cards, 2) {
        HandCategory::OnePair
    } else {
        HandCategory::HighCard
    }
}

/// Taking one card out lowers the count of its rank by one and no other.
pub proof fn lemma_count_rank_remove(cards: Seq<CardView>, at: int, rank: int)
    requires
        0 <= at < cards.len(),
    ensures
        count_rank(cards, rank) == count_rank(cards.remove(at), rank) + if cards[at].rank()
            == rank {
            1nat
        } else {
            0nat
        },
    decreases cards.len(),
{
    if at == cards.len() - 1 {
    } else {
        lemma_count_rank_remove(cards.drop_last(), at, rank);
        assert(cards.remove(at).drop_last() =~= cards.drop_last().remove(at));
    }
}

/// Two sequences that hold the same cards, in whatever order and with
/// whatever scores, hold each rank equally often.
pub proof fn lemma_count_rank_ignores_order(a: Seq<CardView>, b: Seq<CardView>, rank: int)
    requires
        identities(a).to_multiset() == identities(b).to_multiset(),
    ensures
        a.len() == b.len(),
        count_rank(a, rank) == count_rank(b, rank),
    decreases a.len(),
{
    let ia = identities(a);
    let ib = identities(b);
    to_multiset_len(ia);
    to_multiset_len(ib);
    if a.len() > 0 {
        let last = a.len() - 1;
        let id = ia[last];
        to_multiset_contains(ia, id);
        to_multiset_contains(ib, id);
        let at = choose|at: int| 0 <= at < ib.len() && ib[at] == id;
        to_multiset_remove(ia, last);
        to_multiset_remove(ib, at);
        assert(identities(a.drop_last()) =~= ia.remove(last));
        assert(identities(b.remove(at)) =~= ib.remove(at));
        lemma_count_rank_ignores_order(a.drop_last(), b.remove(at), rank);
        lemma_count_rank_remove(b, at, rank);
    }
}

/// Every card of one sequence occurs in any other that holds the same cards.
proof fn lemma_identity_found(a: Seq<CardView>, b: Seq<CardView>, i: int) -> (k: int)
    requires
        identities(a).to_multiset() == identities(b).to_multiset(),
        0 <= i < b.len(),
    ensures
        0 <= k < a.len(),
        a[k].identity() == b[i].identity(),
{
    let ia = identities(a);
    let ib = identities(b);
    let id = ib[i];
    to_multiset_contains(ia, id);
    to_multiset_contains(ib, id);
    choose|k: int| 0 <= k < ia.len() && ia[k] == id
}

/// A flush stays a flush however its cards are ordered.
proof fn lemma_flush_carries_over(a: Seq<CardView>, b: Seq<CardView>)
    requires
        identities(a).to_multiset() == identities(b).to_multiset(),
        flush(a),
    ensures
        flush(b),
{
    assert forall|i: int| 0 <= i < b.len() implies (#[trigger] b[i]).suit == b[0].suit by {
        let k = lemma_identity_found(a, b, i);
        let k0 = lemma_identity_found(a, b, 0);
    }
}

/// Sequences that hold each rank equally often have as many ranks of each
/// frequency.
proof fn lemma_groups_below_ignores_order(
    a: Seq<CardView>,
    b: Seq<CardView>,
    size: int,
    below: int,
)
    requires
        forall|rank: int| count_rank(a, rank) == count_rank(b, rank),
    ensures
        groups_below(a, size, below) == groups_below(b, size, below),
    decreases below,
{
    if below > 0 {
        lemma_groups_below_ignores_order(a, b, size, below - 1);
    }
}

/// The category depends on nothing but which cards are held: two sequences
/// with the same multiset of face and suit symbols fall in the same category,
/// whatever their order and whatever scores their cards carry.
pub proof fn lemma_category_ignores_order(a: Seq<CardView>, b: Seq<CardView>)
    requires
        identities(a).to_multiset() == identities(b).to_multiset(),
    ensures
        flush(a) == flush(b),
        straight(a) == straight(b),
        category_of(a) == category_of(b),
{
    assert forall|rank: int| count_rank(a, rank) == count_rank(b, rank) by {
        lemma_count_rank_ignores_order(a, b, rank);
    }
    lemma_count_rank_ignores_order(a, b, 0);
    if flush(a) {
        lemma_flush_carries_over(a, b);
    }
    if flush(b) {
        lemma_flush_carries_over(b, a);
    }
    lemma_groups_below_ignores_order(a, b, 2, 15);
    assert(forall|low: int| run_from(a, low) == run_from(b, low));
}

/// A hand is a straight flush or a royal flush exactly when it is both a
/// flush and a straight, and a royal flush is a straight flush that holds an
/// ace and a king.
pub proof fn lemma_straight_flush_family(cards: Seq<CardView>)
    ensures
        category_of(cards) == HandCategory::RoyalFlush || category_of(cards)
            == HandCategory::StraightFlush <==> flush(cards) && straight(cards),
        category_of(cards) == HandCategory::RoyalFlush <==> flush(cards) && straight(cards)
            && count_rank(cards, 14) > 0 && count_rank(cards, 13) > 0,
{
}

/// Five cards hold five ranks: where five different ranks occur once each,
/// no other rank occurs.
pub proof fn lemma_five_ranks_fill_hand(
    cards: Seq<CardView>,
    r0: int,
    r1: int,
    r2: int,
    r3: int,
    r4: int,
    other: int,
)
    requires
        cards.len() == 5,
        r0 != r1 && r0 != r2 && r0 != r3 && r0 != r4,
        r1 != r2 && r1 != r3 && r1 != r4,
        r2 != r3 && r2 != r4,
        r3 != r4,
        count_rank(cards, r0) == 1,
        count_rank(cards, r1) == 1,
        count_rank(cards, r2) == 1,
        count_rank(cards, r3) == 1,
        count_rank(cards, r4) == 1,
        other != r0 && other != r1 && other != r2 && other != r3 && other != r4,
    ensures
        count_rank(cards, other) == 0,
{
    reveal_with_fuel(count_rank, 6);
}

/// The run of ace, two, three, four and five is a straight in which the ace
/// plays low: in one suit it is a straight flush and never a royal flush, in
/// mixed suits it is a straight.
pub proof fn lemma_low_ace_run(cards: Seq<CardView>)
    requires
        cards.len() == 5,
        low_ace_run(cards),
    ensures
        straight(cards),
        flush(cards) ==> category_of(cards) == HandCategory::StraightFlush,
        !flush(cards) ==> category_of(cards) == HandCategory::Straight,
{
    lemma_five_ranks_fill_hand(cards, 14, 2, 3, 4, 5, 13);
    assert forall|rank: int| 0 <= rank < 15 implies count_rank(cards, rank) <= 1 by {
        if rank != 14 && rank != 2 && rank != 3 && rank != 4 && rank != 5 {
            lemma_five_ranks_fill_hand(cards, 14, 2, 3, 4, 5, rank);
        }
    }
}

/// A rank is counted at most once for each card, and no rank outside the
/// table of frequencies is counted at all.
pub proof fn lemma_count_rank_bounds(cards: Seq<CardView>, rank: int)
    ensures
        count_rank(cards, rank) <= cards.len(),
        rank < 0 || rank >= 15 ==> count_rank(cards, rank) == 0,
    decreases cards.len(),
{
    if cards.len() > 0 {
        lemma_count_rank_bounds(cards.drop_last(), rank);
        lemma_symbol_ranges(cards.last());
    }
}

/// The table of rank frequencies: slot `r` holds how many cards have rank `r`.
pub fn face_counts(cards: &Vec<Card>) -> (counts: Vec<usize>)
    ensures
        counts@.len() == RANK_SLOTS,
        forall|rank: int|
            0 <= rank < RANK_SLOTS ==> counts@[rank] == count_rank(views_of(cards@), rank),
{
    let mut counts: Vec<usize> = vec![0usize; RANK_SLOTS];
    let ghost all = views_of(cards@);
    let mut i: usize = 0;
    while i < cards.len()
        invariant
            0 <= i <= cards@.len(),
            all == views_of(cards@),
            counts@.len() == RANK_SLOTS,
            forall|rank: int|
                0 <= rank < RANK_SLOTS ==> counts@[rank] == count_rank(all.take(i as int), rank),
        decreases cards@.len() - i,
    {
        let rank: usize = cards[i].face_value() as usize;
        proof {
            assert(all.take(i + 1).drop_last() =~= all.take(i as int));
            lemma_count_rank_bounds(all.take(i as int), rank as int);
        }
        let seen: usize = counts[rank];
        counts.set(rank, seen + 1);
        i += 1;
    }
    proof {
        assert(all.take(cards@.len() as int) =~= all);
    }
    counts
}

/// Whether all the cards share one suit symbol.
pub fn is_flush(cards: &Vec<Card>) -> (same: bool)
    ensures
        same == flush(views_of(cards@)),
{
    let mut i: usize = 1;
    while i < cards.len()
        invariant
            1 <= i,
            forall|j: int|
                0 <= j < i && j < cards@.len() ==> (#[trigger] cards@[j]).suit@ == cards@[0].suit@,
        decreases cards@.len() - i,
    {
        if cards[i].suit != cards[0].suit {
            assert(views_of(cards@)[i as int].suit != views_of(cards@)[0].suit);
            return false;
        }
        i += 1;
    }
    true
}

/// Whether some slot of the table holds exactly `n`.
pub fn contains_n_of_a_kind(face_counts: &Vec<usize>, n: usize) -> (found: bool)
    ensures
        found == exists|rank: int| 0 <= rank < face_counts@.len() && face_counts@[rank] == n,
{
    let mut i: usize = 0;
    while i < face_counts.len()
        invariant
            0 <= i <= face_counts@.len(),
            forall|rank: int| 0 <= rank < i ==> face_counts@[rank] != n,
        decreases face_counts@.len() - i,
    {
        if face_counts[i] == n {
            return true;
        }
        i += 1;
    }
    false
}

/// How many of the first `below` slots of a table hold exactly `n`.
pub open spec fn slots_holding(table: Seq<usize>, n: int, below: int) -> nat
    decreases below,
{
    if below <= 0 {
        0
    } else {
        slots_holding(table, n, below - 1) + if table[below - 1] == n {
            1nat
        } else {
            0nat
        }
    }
}

/// A table of the frequencies of some cards has as many slots that hold `n`
/// as the cards have ranks that occur `n` times.
pub proof fn lemma_slots_are_groups(table: Seq<usize>, cards: Seq<CardView>, n: int, below: int)
    requires
        0 <= below <= table.len(),
        forall|rank: int| 0 <= rank < table.len() ==> table[rank] == count_rank(cards, rank),
    ensures
        slots_holding(table, n, below) == groups_below(cards, n, below),
        slots_holding(table, n, below) <= below,
    decreases below,
{
    if below > 0 {
        lemma_slots_are_groups(table, cards, n, below - 1);
    }
}

/// How many slots of the table hold exactly 2.
pub fn count_pairs(face_counts: &Vec<usize>) -> (pairs: usize)
    ensures
        pairs == slots_holding(face_counts@, 2, face_counts@.len() as int),
{
    let mut pairs: usize = 0;
    let mut i: usize = 0;
    while i < face_counts.len()
        invariant
            0 <= i <= face_counts@.len(),
            pairs == slots_holding(face_counts@, 2, i as int),
            pairs <= i,
        decreases face_counts@.len() - i,
    {
        if face_counts[i] == 2 {
            pairs += 1;
        }
        i += 1;
    }
    pairs
}

/// Whether the cards are five of consecutive ranks, the ace counting low
/// before a two as well as high.
pub fn is_straight(cards: &Vec<Card>) -> (run: bool)
    ensures
        run == straight(views_of(cards@)),
{
    if cards.len() != 5 {
        return false;
    }
    let counts = face_counts(cards);
    let ghost all = views_of(cards@);
    if counts[2] == 1 && counts[3] == 1 && counts[4] == 1 && counts[5] == 1 && counts[14] == 1 {
        return true;
    }
    let mut low: usize = 0;
    while low <= 10
        invariant
            0 <= low <= 11,
            all == views_of(cards@),
            all.len() == 5,
            counts@.len() == RANK_SLOTS,
            forall|rank: int| 0 <= rank < RANK_SLOTS ==> counts@[rank] == count_rank(all, rank),
            forall|l: int| 0 <= l < low ==> !run_from(all, l),
        decreases 11 - low,
    {
        if counts[low] == 1 && counts[low + 1] == 1 && counts[low + 2] == 1 && counts[low + 3] == 1
            && counts[low + 4] == 1 {
            assert(run_from(all, low as int));
            return true;
        }
        proof {
            let l = low as int;
            assert(count_rank(all, l) != 1 || count_rank(all, l + 1) != 1 || count_rank(all, l + 2)
                != 1 || count_rank(all, l + 3) != 1 || count_rank(all, l + 4) != 1);
        }
        low += 1;
    }
    proof {
        assert forall|l: int| !run_from(all, l) by {
            if l < 0 {
                lemma_count_rank_bounds(all, l);
            } else if l > 10 {
                lemma_count_rank_bounds(all, l + 4);
            }
        }
    }
    false
}

} // verus!
