//! The canonical order of the cards of a hand: the cards of a repeated rank
//! first, then the others, each part in descending order of rank and suit.

use vstd::prelude::*;
use vstd::seq_lib::lemma_multiset_commutative;
use crate::card::{Card, CardView, by_sort_key, views_of};
use crate::category::{RANK_SLOTS, count_rank, face_counts};
use crate::order::{
    lemma_insert_desc_at, lemma_sort_desc_ordered, lemma_sort_desc_permutes,
    lemma_split_keeps_items, ordered_desc, sort_desc,
};

verus! {

/// The test that a card's rank occurs more than once among `cards`.
pub open spec fn in_group(cards: Seq<CardView>) -> spec_fn(CardView) -> bool {
    |card: CardView| count_rank(cards, card.rank()) > 1
}

/// The test that a card's rank does not occur more than once among `cards`.
pub open spec fn alone(cards: Seq<CardView>) -> spec_fn(CardView) -> bool {
    |card: CardView| !(count_rank(cards, card.rank()) > 1)
}

/// The key cards of `cards`: those whose rank occurs more than once, in
/// descending order of rank and suit.
pub open spec fn key_cards_of(cards: Seq<CardView>) -> Seq<CardView> {
    sort_desc(cards.filter(in_group(cards)), by_sort_key())
}

/// The kickers of `cards`: those whose rank occurs once, in descending order
/// of rank and suit.
pub open spec fn kickers_of(cards: Seq<CardView>) -> Seq<CardView> {
    sort_desc(cards.filter(alone(cards)), by_sort_key())
}

/// The canonical order of `cards`: the key cards, then the kickers.
pub open spec fn ordered_cards_of(cards: Seq<CardView>) -> Seq<CardView> {
    key_cards_of(cards) + kickers_of(cards)
}

/// The canonical order holds the cards that were given, no more and no fewer.
pub proof fn lemma_ordered_cards_permute(cards: Seq<CardView>)
    ensures
        ordered_cards_of(cards).to_multiset() == cards.to_multiset(),
        ordered_cards_of(cards).len() == cards.len(),
        key_cards_of(cards).len() + kickers_of(cards).len() == cards.len(),
{
    let keys = cards.filter(in_group(cards));
    let rest = cards.filter(alone(cards));
    lemma_split_keeps_items(cards, in_group(cards), alone(cards));
    lemma_sort_desc_permutes(keys, by_sort_key());
    lemma_sort_desc_permutes(rest, by_sort_key());
    lemma_multiset_commutative(key_cards_of(cards), kickers_of(cards));
}

/// The cards split in two: those of a rank that occurs more than once, and
/// the others, each part in the order in which the cards came.
pub fn separate_key_cards_and_kickers(cards: &Vec<Card>) -> (parts: (Vec<Card>, Vec<Card>))
    ensures
        views_of(parts.0@) == views_of(cards@).filter(in_group(views_of(cards@))),
        views_of(parts.1@) == views_of(cards@).filter(alone(views_of(cards@))),
        parts.0@.len() + parts.1@.len() == cards@.len(),
{
    let counts = face_counts(cards);
    let mut key_cards: Vec<Card> = Vec::new();
    let mut kickers: Vec<Card> = Vec::new();
    let ghost all = views_of(cards@);
    let mut i: usize = 0;
    proof {
        reveal(Seq::filter);
    }
    while i < cards.len()
        invariant
            0 <= i <= cards@.len(),
            all == views_of(cards@),
            counts@.len() == RANK_SLOTS,
            forall|rank: int| 0 <= rank < RANK_SLOTS ==> counts@[rank] == count_rank(all, rank),
            views_of(key_cards@) == all.take(i as int).filter(in_group(all)),
            views_of(kickers@) == all.take(i as int).filter(alone(all)),
            key_cards@.len() + kickers@.len() == i,
        decreases cards@.len() - i,
    {
        let rank: usize = cards[i].face_value() as usize;
        let card = cards[i].clone();
        proof {
            assert(all.take(i + 1) =~= all.take(i as int).push(card@));
            all.take(i as int).lemma_filter_push(card@, in_group(all));
            all.take(i as int).lemma_filter_push(card@, alone(all));
        }
        if counts[rank] > 1 {
            key_cards.push(card);
        } else {
            kickers.push(card);
        }
        i += 1;
    }
    proof {
        assert(all.take(cards@.len() as int) =~= all);
    }
    (key_cards, kickers)
}

/// The cards in descending order of their sort keys; cards with equal keys
/// keep the order in which they came.
pub fn sort_cards(cards: &Vec<Card>) -> (sorted: Vec<Card>)
    ensures
        views_of(sorted@) == sort_desc(views_of(cards@), by_sort_key()),
        views_of(sorted@).to_multiset() == views_of(cards@).to_multiset(),
        ordered_desc(views_of(sorted@), by_sort_key()),
{
    let mut sorted: Vec<Card> = Vec::new();
    let ghost all = views_of(cards@);
    let mut i: usize = 0;
    while i < cards.len()
        invariant
            0 <= i <= cards@.len(),
            all == views_of(cards@),
            sorted@.len() == i,
            views_of(sorted@) == sort_desc(all.take(i as int), by_sort_key()),
        decreases cards@.len() - i,
    {
        let card = cards[i].clone();
        let key: u64 = card.sort_key();
        let mut at: usize = sorted.len();
        while at > 0 && sorted[at - 1].sort_key() < key
            invariant
                0 <= at <= sorted@.len(),
                key == card@.sort_key(),
                forall|j: int|
                    at <= j < sorted@.len() ==> (#[trigger] sorted@[j])@.sort_key() < key,
            decreases at,
        {
            at -= 1;
        }
        proof {
            let before = views_of(sorted@);
            lemma_insert_desc_at(before, card@, by_sort_key(), at as int);
            assert(all.take(i + 1).drop_last() =~= all.take(i as int));
        }
        sorted.insert(at, card);
        i += 1;
    }
    proof {
        assert(all.take(cards@.len() as int) =~= all);
        lemma_sort_desc_permutes(all, by_sort_key());
        lemma_sort_desc_ordered(all, by_sort_key());
    }
    sorted
}

/// Puts each part in descending order and returns the canonical order of the
/// hand: the key cards followed by the kickers.
pub fn sort_hand(key_cards: &mut Vec<Card>, kickers: &mut Vec<Card>) -> (cards: Vec<Card>)
    ensures
        views_of(final(key_cards)@) == sort_desc(views_of(old(key_cards)@), by_sort_key()),
        views_of(final(kickers)@) == sort_desc(views_of(old(kickers)@), by_sort_key()),
        views_of(cards@) == views_of(final(key_cards)@) + views_of(final(kickers)@),
{
    *key_cards = sort_cards(key_cards);
    *kickers = sort_cards(kickers);
    let mut cards: Vec<Card> = Vec::new();
    let mut i: usize = 0;
    while i < key_cards.len()
        invariant
            0 <= i <= key_cards@.len(),
            views_of(cards@) == views_of(key_cards@).take(i as int),
        decreases key_cards@.len() - i,
    {
        let card = key_cards[i].clone();
        proof {
            assert(views_of(key_cards@).take(i + 1) =~= views_of(key_cards@).take(i as int).push(
                card@,
            ));
        }
        cards.push(card);
        i += 1;
    }
    let mut j: usize = 0;
    while j < kickers.len()
        invariant
            0 <= j <= kickers@.len(),
            views_of(cards@) == views_of(key_cards@) + views_of(kickers@).take(j as int),
        decreases kickers@.len() - j,
    {
        let card = kickers[j].clone();
        proof {
            assert((views_of(key_cards@) + views_of(kickers@).take(j as int)).push(card@)
                =~= views_of(key_cards@) + views_of(kickers@).take(j + 1));
        }
        cards.push(card);
        j += 1;
    }
    cards
}

} // verus!
