//! Runs of neighbouring cards that count as the same number.

use itertools::Itertools;
use vstd::prelude::*;
use crate::card::{number_of, Card};
use crate::combination::count_with_number;
use crate::order::{card_order, is_sorted};

verus! {

/// The number that the cards of a chunk count as, if they count as one.
pub open spec fn chunk_number(chunk: (Option<usize>, Vec<Card>)) -> Option<int> {
    number_of(chunk.0)
}

/// How many cards a chunk holds.
pub open spec fn chunk_size(chunk: (Option<usize>, Vec<Card>)) -> nat {
    chunk.1@.len()
}

/// Where chunk `index` begins among the cards: the sizes of the chunks before
/// it, added up.
pub open spec fn chunk_start(chunks: Seq<(Option<usize>, Vec<Card>)>, index: int) -> int
    decreases index,
{
    if index <= 0 {
        0
    } else {
        chunk_start(chunks, index - 1) + chunk_size(chunks[index - 1])
    }
}

/// Whether `chunks` cuts `cards` into its runs. Each chunk gives a number (or
/// none) and the cards of one run. No chunk is empty; a chunk holds the cards
/// from where it begins to where the next begins, and every one of them
/// counts as the chunk's number; laid end to end the chunks make up the
/// cards; and neighbouring chunks differ in their number, so that no run is
/// cut in two.
#[verifier::opaque]
pub open spec fn is_chunking(cards: Seq<Card>, chunks: Seq<(Option<usize>, Vec<Card>)>) -> bool {
    &&& chunk_start(chunks, chunks.len() as int) == cards.len()
    &&& forall|j: int|
        0 <= j < chunks.len() ==> {
            &&& chunk_size(#[trigger] chunks[j]) >= 1
            &&& chunks[j].1@ == cards.subrange(chunk_start(chunks, j), chunk_start(chunks, j + 1))
            &&& forall|k: int|
                0 <= k < chunks[j].1@.len() ==> (#[trigger] chunks[j].1@[k]).number()
                    == chunk_number(chunks[j])
        }
    &&& forall|j: int| 0 <= j < chunks.len() - 1 ==> (#[trigger] chunks[j]).0 != chunks[j + 1].0
}

/// Cuts `cards` into runs of neighbours that count as the same number (or as
/// none), and gives the number and the cards of each run, in order.
///
/// Calls `itertools::Itertools::chunk_by` on the cards with
/// [`Card::numeric_value`] as the key, and collects each group it hands out.
/// Trusted: that the groups are the runs of equal keys, as `chunk_by`
/// documents: consecutive cards with the same key share a group, so every
/// group is non-empty, holds neighbours of one key, and has another key than
/// the group after it, and the groups together are all the cards in order.
#[verifier::external_body]
pub(crate) fn chunk_by_number(cards: &Vec<Card>) -> (chunks: Vec<(Option<usize>, Vec<Card>)>)
    ensures
        is_chunking(cards@, chunks@),
{
    cards.iter().chunk_by(|card| card.numeric_value()).into_iter().map(
        |(number, group)| (number, group.copied().collect()),
    ).collect()
}

/// Later chunks begin later: each chunk before `later` pushes its start on by
/// at least one card.
pub proof fn lemma_chunk_starts_ascend(
    chunks: Seq<(Option<usize>, Vec<Card>)>,
    earlier: int,
    later: int,
)
    requires
        forall|j: int| 0 <= j < chunks.len() ==> chunk_size(#[trigger] chunks[j]) >= 1,
        0 <= earlier <= later <= chunks.len(),
    ensures
        chunk_start(chunks, earlier) + (later - earlier) <= chunk_start(chunks, later),
    decreases later - earlier,
{
    if earlier < later {
        lemma_chunk_starts_ascend(chunks, earlier, later - 1);
    }
}

/// Every position before the end of the chunks lies in one of them.
pub proof fn lemma_chunk_of_position(
    chunks: Seq<(Option<usize>, Vec<Card>)>,
    position: int,
    bound: int,
) -> (index: int)
    requires
        0 <= position < chunk_start(chunks, bound),
        0 <= bound <= chunks.len(),
    ensures
        0 <= index < bound,
        chunk_start(chunks, index) <= position < chunk_start(chunks, index + 1),
    decreases bound,
{
    if chunk_start(chunks, bound - 1) <= position {
        bound - 1
    } else {
        lemma_chunk_of_position(chunks, position, bound - 1)
    }
}

/// Every card that chunk `index` lies over counts as the number of the chunk.
pub proof fn lemma_cards_under_chunk(
    cards: Seq<Card>,
    chunks: Seq<(Option<usize>, Vec<Card>)>,
    index: int,
    position: int,
)
    requires
        is_chunking(cards, chunks),
        0 <= index < chunks.len(),
        chunk_start(chunks, index) <= position < chunk_start(chunks, index + 1),
    ensures
        0 <= position < cards.len(),
        cards[position].number() == chunk_number(chunks[index]),
{
    reveal(is_chunking);
    let from = chunk_start(chunks, index);
    assert(forall|j: int| 0 <= j < chunks.len() ==> chunk_size(#[trigger] chunks[j]) >= 1);
    lemma_chunk_starts_ascend(chunks, 0, index);
    lemma_chunk_starts_ascend(chunks, index + 1, chunks.len() as int);
    let held = chunks[index].1@;
    assert(held[position - from] == cards[position]);
}

/// A card that lies, in the order of cards, between two cards of the same
/// number counts as that number too; and numbers never fall along the order.
pub proof fn lemma_numbers_follow_order(low: Card, mid: Card, high: Card)
    requires
        low.sort_key() <= mid.sort_key() <= high.sort_key(),
    ensures
        low.number().is_some() && mid.number().is_some() ==> low.number().unwrap()
            <= mid.number().unwrap(),
        low.number().is_some() && low.number() == high.number() ==> mid.number() == low.number(),
{
}

/// Where the cards that count as `number` are exactly those from `from` up
/// to, not including, `to`, there are `to - from` of them.
pub proof fn lemma_count_of_stretch(cards: Seq<Card>, number: int, from: int, to: int)
    requires
        0 <= from <= to <= cards.len(),
        forall|i: int|
            0 <= i < cards.len() ==> ((#[trigger] cards[i]).number() == Some(number) <==> from
                <= i < to),
    ensures
        count_with_number(cards, number) == to - from,
    decreases cards.len(),
{
    if cards.len() > 0 {
        let rest = cards.drop_last();
        if from < to && to == cards.len() {
            lemma_count_of_stretch(rest, number, from, to - 1);
        } else if from < to {
            lemma_count_of_stretch(rest, number, from, to);
        } else {
            lemma_count_of_stretch(rest, number, 0, 0);
        }
    }
}

/// A number that some card counts as is the number of some card, at a known
/// place.
pub proof fn lemma_counted_number_occurs(cards: Seq<Card>, number: int) -> (place: int)
    requires
        count_with_number(cards, number) > 0,
    ensures
        0 <= place < cards.len(),
        cards[place].number() == Some(number),
    decreases cards.len(),
{
    if cards.last().number() == Some(number) {
        cards.len() - 1
    } else {
        lemma_counted_number_occurs(cards.drop_last(), number)
    }
}

/// In a hand in ascending order, a chunk with a number holds every card of
/// that number: its size is how many cards count as the number.
pub proof fn lemma_chunk_holds_all_of_number(
    cards: Seq<Card>,
    chunks: Seq<(Option<usize>, Vec<Card>)>,
    index: int,
)
    requires
        is_sorted(cards),
        is_chunking(cards, chunks),
        0 <= index < chunks.len(),
        chunks[index].0.is_some(),
    ensures
        chunk_size(chunks[index]) == count_with_number(cards, chunks[index].0.unwrap() as int),
{
    let number = chunks[index].0.unwrap() as int;
    let from = chunk_start(chunks, index);
    let to = chunk_start(chunks, index + 1);
    assert(forall|j: int| 0 <= j < chunks.len() ==> chunk_size(#[trigger] chunks[j]) >= 1
        && (j < chunks.len() - 1 ==> chunks[j].0 != chunks[j + 1].0)) by {
        reveal(is_chunking);
    }
    assert(chunk_start(chunks, chunks.len() as int) == cards.len()) by {
        reveal(is_chunking);
    }
    lemma_chunk_starts_ascend(chunks, 0, index);
    lemma_chunk_starts_ascend(chunks, index, index + 1);
    lemma_chunk_starts_ascend(chunks, index + 1, chunks.len() as int);
    lemma_cards_under_chunk(cards, chunks, index, from);
    assert forall|i: int| 0 <= i < cards.len() implies ((#[trigger] cards[i]).number() == Some(
        number,
    ) <==> from <= i < to) by {
        if from <= i < to {
            lemma_cards_under_chunk(cards, chunks, index, i);
        } else if cards[i].number() == Some(number) {
            if i < from {
                // The card just before the chunk lies between two cards of the
                // number, so the chunk before would have the same number.
                assert(card_order()(cards[i], cards[from - 1]) || i == from - 1);
                assert(card_order()(cards[from - 1], cards[from]));
                lemma_numbers_follow_order(cards[i], cards[from - 1], cards[from]);
                lemma_chunk_starts_ascend(chunks, index - 1, index);
                lemma_cards_under_chunk(cards, chunks, index - 1, from - 1);
            } else {
                // Likewise for the card just after the chunk.
                assert(card_order()(cards[to], cards[i]) || i == to);
                assert(card_order()(cards[from], cards[to]));
                lemma_numbers_follow_order(cards[from], cards[to], cards[i]);
                lemma_chunk_starts_ascend(chunks, index + 1, index + 2);
                lemma_cards_under_chunk(cards, chunks, index + 1, to);
            }
        }
    }
    lemma_count_of_stretch(cards, number, from, to);
}

/// A number that some card counts as has a chunk.
pub proof fn lemma_counted_number_has_chunk(
    cards: Seq<Card>,
    chunks: Seq<(Option<usize>, Vec<Card>)>,
    number: int,
) -> (index: int)
    requires
        is_chunking(cards, chunks),
        count_with_number(cards, number) > 0,
    ensures
        0 <= index < chunks.len(),
        chunk_number(chunks[index]) == Some(number),
{
    assert(chunk_start(chunks, chunks.len() as int) == cards.len()) by {
        reveal(is_chunking);
    }
    let place = lemma_counted_number_occurs(cards, number);
    let index = lemma_chunk_of_position(chunks, place, chunks.len() as int);
    lemma_cards_under_chunk(cards, chunks, index, place);
    index
}

} // verus!
