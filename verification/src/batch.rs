//! A batch of hands written as lines of card identifiers: reading it,
//! refusing it when a card occurs twice, and putting the hands in the order
//! of their strength.

use vstd::prelude::*;
use crate::card::{Card, CardView, views_of};
use crate::error::HandError;
use crate::hand::{HAND_SIZE, Hand, by_tier, hand_of, hand_views, playable};
use crate::order::{
    lemma_insert_desc_at, lemma_sort_desc_ordered, lemma_sort_desc_permutes, ordered_desc,
    sort_desc,
};
use crate::parse::{card_of_token, parse_card, split_line, texts_of, tokens_of};

verus! {

/// The number of lines of a batch that are read; further lines are ignored.
pub const HANDS_PER_BATCH: usize = 6;

/// The lines of a batch that are read: the first six, or all if there are
/// fewer.
pub open spec fn rows_of(lines: Seq<Seq<char>>) -> Seq<Seq<char>> {
    if lines.len() > HANDS_PER_BATCH {
        lines.take(HANDS_PER_BATCH as int)
    } else {
        lines
    }
}

/// All the identifiers of the rows, row after row, in the order in which
/// they stand.
pub open spec fn identifiers_in(rows: Seq<Seq<char>>) -> Seq<Seq<char>>
    decreases rows.len(),
{
    if rows.len() == 0 {
        Seq::empty()
    } else {
        identifiers_in(rows.drop_last()) + tokens_of(rows.last())
    }
}

/// The cards that the identifiers name.
pub open spec fn cards_of(tokens: Seq<Seq<char>>) -> Seq<CardView> {
    tokens.map_values(|token: Seq<char>| card_of_token(token))
}

/// The cards that a row names.
pub open spec fn cards_in(row: Seq<char>) -> Seq<CardView> {
    cards_of(tokens_of(row))
}

/// The last identifier that repeats an earlier one, if there is any.
pub open spec fn last_repeat(identifiers: Seq<Seq<char>>) -> Option<Seq<char>>
    decreases identifiers.len(),
{
    if identifiers.len() == 0 {
        None
    } else if identifiers.drop_last().contains(identifiers.last()) {
        Some(identifiers.last())
    } else {
        last_repeat(identifiers.drop_last())
    }
}

/// Why cards that are not playable are refused: for their number if it is
/// not five, else for a card with an unknown symbol.
pub open spec fn refusal(cards: Seq<CardView>) -> HandError {
    if cards.len() != HAND_SIZE {
        HandError::InvalidHandSize
    } else {
        HandError::InvalidCard
    }
}

/// Row `at` is the first whose cards are not playable.
pub open spec fn first_unplayable(rows: Seq<Seq<char>>, at: int) -> bool {
    &&& 0 <= at < rows.len()
    &&& !playable(cards_in(rows[at]))
    &&& forall|k: int| 0 <= k < at ==> playable(cards_in(#[trigger] rows[k]))
}

/// The text of an optional string.
pub open spec fn text_of(found: Option<String>) -> Option<Seq<char>> {
    match found {
        Some(text) => Some(text@),
        None => None,
    }
}

/// No identifier repeats an earlier one exactly when all are different.
pub proof fn lemma_no_repeat_means_distinct(identifiers: Seq<Seq<char>>)
    ensures
        last_repeat(identifiers) is None <==> identifiers.no_duplicates(),
    decreases identifiers.len(),
{
    if identifiers.len() > 0 {
        let rest = identifiers.drop_last();
        let last = identifiers.last();
        lemma_no_repeat_means_distinct(rest);
        if !rest.contains(last) && rest.no_duplicates() {
            assert forall|i: int, j: int|
                0 <= i < identifiers.len() && 0 <= j < identifiers.len() && i
                    != j implies identifiers[i] != identifiers[j] by {
                if i < rest.len() && j < rest.len() {
                    assert(rest[i] != rest[j]);
                } else if i < rest.len() {
                    assert(rest[i] == identifiers[i]);
                } else {
                    assert(rest[j] == identifiers[j]);
                }
            }
        }
    }
}

/// The last identifier that repeats an earlier one, if there is any.
pub fn find_duplicate(identifiers: &Vec<String>) -> (found: Option<String>)
    ensures
        text_of(found) == last_repeat(texts_of(identifiers@)),
        found is None <==> texts_of(identifiers@).no_duplicates(),
{
    let ghost all = texts_of(identifiers@);
    let mut found: Option<String> = None;
    let mut i: usize = 0;
    while i < identifiers.len()
        invariant
            0 <= i <= identifiers@.len(),
            all == texts_of(identifiers@),
            text_of(found) == last_repeat(all.take(i as int)),
        decreases identifiers@.len() - i,
    {
        let mut seen: bool = false;
        let mut j: usize = 0;
        while j < i
            invariant
                0 <= j <= i < identifiers@.len(),
                all == texts_of(identifiers@),
                seen == exists|k: int| 0 <= k < j && all[k] == all[i as int],
            decreases i - j,
        {
            if identifiers[j] == identifiers[i] {
                seen = true;
                proof {
                    assert(all[j as int] == all[i as int]);
                }
            }
            j += 1;
        }
        proof {
            let upto = all.take(i + 1);
            assert(upto.drop_last() =~= all.take(i as int));
            if seen {
                let k = choose|k: int| 0 <= k < i && all[k] == all[i as int];
                assert(all.take(i as int)[k] == all[i as int]);
            }
        }
        if seen {
            found = Some(identifiers[i].clone());
        }
        i += 1;
    }
    proof {
        assert(all.take(identifiers@.len() as int) =~= all);
        lemma_no_repeat_means_distinct(all);
    }
    found
}

/// The cards that the identifiers name, in the order of the identifiers.
pub fn cards_named(tokens: &Vec<String>) -> (cards: Vec<Card>)
    ensures
        views_of(cards@) == cards_of(texts_of(tokens@)),
{
    let mut cards: Vec<Card> = Vec::new();
    let ghost all = texts_of(tokens@);
    let mut i: usize = 0;
    while i < tokens.len()
        invariant
            0 <= i <= tokens@.len(),
            all == texts_of(tokens@),
            views_of(cards@) == cards_of(all).take(i as int),
        decreases tokens@.len() - i,
    {
        let card = parse_card(tokens[i].as_str());
        proof {
            assert(cards_of(all).take(i + 1) =~= cards_of(all).take(i as int).push(card@));
        }
        cards.push(card);
        i += 1;
    }
    cards
}

/// The cards that the line names, in the order in which they stand.
pub fn parse_hand(line: &str) -> (cards: Vec<Card>)
    ensures
        views_of(cards@) == cards_in(line@),
{
    let tokens = split_line(line);
    cards_named(&tokens)
}

/// The hands in descending order of the tier of their category, the
/// strongest first; hands of one category stay in the order in which they
/// came.
pub fn winning_order(hands: Vec<Hand>) -> (sorted: Vec<Hand>)
    ensures
        hand_views(sorted@) == sort_desc(hand_views(hands@), by_tier()),
        hand_views(sorted@).to_multiset() == hand_views(hands@).to_multiset(),
        ordered_desc(hand_views(sorted@), by_tier()),
{
    let ghost all = hand_views(hands@);
    let mut rest = hands;
    let mut sorted: Vec<Hand> = Vec::new();
    let ghost mut taken: int = 0;
    while rest.len() > 0
        invariant
            0 <= taken <= all.len(),
            hand_views(rest@) == all.skip(taken),
            hand_views(sorted@) == sort_desc(all.take(taken), by_tier()),
        decreases rest@.len(),
    {
        let ghost before_rest = rest@;
        let hand = rest.remove(0);
        let tier: u64 = hand.category().tier();
        let mut at: usize = sorted.len();
        while at > 0 && sorted[at - 1].category().tier() < tier
            invariant
                0 <= at <= sorted@.len(),
                tier == hand@.category.spec_tier(),
                forall|j: int|
                    at <= j < sorted@.len() ==> (#[trigger] sorted@[j])@.category.spec_tier()
                        < tier,
            decreases at,
        {
            at -= 1;
        }
        proof {
            let before = hand_views(sorted@);
            assert(hand_views(before_rest).len() == before_rest.len());
            assert(hand@ == all.skip(taken)[0]);
            lemma_insert_desc_at(before, hand@, by_tier(), at as int);
            assert(all.take(taken + 1).drop_last() =~= all.take(taken));
            assert forall|j: int| 0 <= j < before_rest.len() - 1 implies hand_views(
                before_rest.remove(0),
            )[j] == all.skip(taken + 1)[j] by {
                assert(all.skip(taken)[j + 1] == all[taken + j + 1]);
            }
            taken = taken + 1;
        }
        sorted.insert(at, hand);
    }
    proof {
        lemma_sort_desc_permutes(all, by_tier());
        lemma_sort_desc_ordered(all, by_tier());
    }
    sorted
}

/// Reads a batch of hands from the lines of a text: one hand to the line, of
/// the first six lines. The batch is refused as a whole if any identifier
/// occurs twice in it. Otherwise the hands are made in the order of the
/// lines, and the first line whose cards do not make a hand has the batch
/// refused.
pub fn read_hands(lines: &Vec<String>) -> (batch: Result<Vec<Hand>, HandError>)
    ensures
        match batch {
            Ok(hands) => {
                let rows = rows_of(texts_of(lines@));
                &&& last_repeat(identifiers_in(rows)) is None
                &&& hands@.len() == rows.len()
                &&& forall|k: int|
                    0 <= k < rows.len() ==> playable(cards_in(#[trigger] rows[k])) && hands@[k]@
                        == hand_of(cards_in(rows[k]))
            },
            Err(error) => {
                let rows = rows_of(texts_of(lines@));
                match last_repeat(identifiers_in(rows)) {
                    Some(repeated) => error matches HandError::DuplicateCard(text) && text@
                        == repeated,
                    None => exists|at: int|
                        first_unplayable(rows, at) && error == refusal(cards_in(rows[at])),
                }
            },
        },
{
    let ghost rows = rows_of(texts_of(lines@));
    let count: usize = if lines.len() > HANDS_PER_BATCH {
        HANDS_PER_BATCH
    } else {
        lines.len()
    };
    let mut identifiers: Vec<String> = Vec::new();
    let mut dealt: Vec<Vec<Card>> = Vec::new();
    let mut k: usize = 0;
    while k < count
        invariant
            0 <= k <= count,
            count == rows.len(),
            count <= lines@.len(),
            rows == rows_of(texts_of(lines@)),
            texts_of(identifiers@) == identifiers_in(rows.take(k as int)),
            dealt@.len() == k,
            forall|j: int| 0 <= j < k ==> views_of((#[trigger] dealt@[j])@) == cards_in(rows[j]),
        decreases count - k,
    {
        let mut tokens = split_line(lines[k].as_str());
        let cards = cards_named(&tokens);
        proof {
            assert(rows.take(k + 1).drop_last() =~= rows.take(k as int));
            assert(texts_of(identifiers@ + tokens@) =~= texts_of(identifiers@) + texts_of(tokens@));
        }
        identifiers.append(&mut tokens);
        dealt.push(cards);
        k += 1;
    }
    proof {
        assert(rows.take(count as int) =~= rows);
    }
    match find_duplicate(&identifiers) {
        Some(text) => {
            return Err(HandError::DuplicateCard(text));
        },
        None => {},
    }
    let mut hands: Vec<Hand> = Vec::new();
    let ghost given = dealt@;
    let mut made: usize = 0;
    while made < count
        invariant
            0 <= made <= count,
            count == rows.len(),
            rows == rows_of(texts_of(lines@)),
            given.len() == count,
            dealt@ == given.skip(made as int),
            forall|j: int| 0 <= j < count ==> views_of((#[trigger] given[j])@) == cards_in(rows[j]),
            hands@.len() == made,
            forall|j: int|
                0 <= j < made ==> playable(cards_in(#[trigger] rows[j])) && hands@[j]@ == hand_of(
                    cards_in(rows[j]),
                ),
            last_repeat(identifiers_in(rows)) is None,
        decreases count - made,
    {
        let cards = dealt.remove(0);
        match Hand::new(cards) {
            Ok(hand) => {
                hands.push(hand);
            },
            Err(error) => {
                proof {
                    assert(first_unplayable(rows, made as int));
                }
                return Err(error);
            },
        }
        made += 1;
    }
    Ok(hands)
}

} // verus!
