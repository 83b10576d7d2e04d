//! What holds of every hand: laws of sorting, of telling combinations
//! apart, and of playing one hand on another.

use vstd::prelude::*;
use crate::card::{Card, SpecialCardType};
use crate::combination::{
    all_play_in_company, beats, classify, count_with_number, highest_number,
    is_bomb, is_straight_bomb, lemma_highest_number, lemma_lowest_number, lowest_number,
    numbered_count, phoenixes_to_pair_up, total_gaps,
};
use crate::hand::HandType;
use crate::order::{
    card_order, is_sorted, lemma_sorted_cards, lemma_sorted_is_unique, sorted_cards,
};

verus! {

/// Sorting keeps every card, as often as it was there, and puts the cards in
/// ascending order.
pub proof fn lemma_sorting_keeps_the_cards(cards: Seq<Card>)
    ensures
        sorted_cards(cards).to_multiset() == cards.to_multiset(),
        sorted_cards(cards).len() == cards.len(),
        is_sorted(sorted_cards(cards)),
{
    lemma_sorted_cards(cards);
}

/// Sorting cards that are in order already changes nothing, so sorting twice
/// gives what sorting once gives.
pub proof fn lemma_sorting_is_idempotent(cards: Seq<Card>)
    ensures
        is_sorted(cards) ==> sorted_cards(cards) == cards,
        sorted_cards(sorted_cards(cards)) == sorted_cards(cards),
{
    lemma_sorted_cards(cards);
    lemma_sorted_cards(sorted_cards(cards));
    if is_sorted(cards) {
        lemma_sorted_is_unique(sorted_cards(cards), cards);
    }
    lemma_sorted_is_unique(sorted_cards(sorted_cards(cards)), sorted_cards(cards));
}

/// The same cards, in whatever order they are given, make the same hand, and
/// so form the same combination.
pub proof fn lemma_hand_depends_on_cards_only(cards: Seq<Card>, other: Seq<Card>)
    requires
        cards.to_multiset() == other.to_multiset(),
    ensures
        sorted_cards(cards) == sorted_cards(other),
        classify(sorted_cards(cards)) == classify(sorted_cards(other)),
{
    lemma_sorted_cards(cards);
    lemma_sorted_cards(other);
    lemma_sorted_is_unique(sorted_cards(cards), sorted_cards(other));
}

/// No cards form no combination.
pub proof fn lemma_empty_hand_is_no_combination()
    ensures
        classify(Seq::<Card>::empty()).is_none(),
{
}

/// Several cards with a Dragon or a Dog among them form no combination.
pub proof fn lemma_dragon_and_dog_play_alone(cards: Seq<Card>)
    requires
        cards.len() > 1,
        cards.contains(Card::SpecialCard(SpecialCardType::Dragon)) || cards.contains(
            Card::SpecialCard(SpecialCardType::Dog),
        ),
    ensures
        classify(cards).is_none(),
{
    let loner = if cards.contains(Card::SpecialCard(SpecialCardType::Dragon)) {
        Card::SpecialCard(SpecialCardType::Dragon)
    } else {
        Card::SpecialCard(SpecialCardType::Dog)
    };
    let place = cards.index_of(loner);
    assert(!cards[place].plays_in_company());
}

/// Cards that would do for a straight bomb are never told as a plain
/// straight: they are a straight bomb.
pub proof fn lemma_straight_bomb_is_never_a_plain_straight(cards: Seq<Card>)
    requires
        is_straight_bomb(cards),
    ensures
        classify(cards) == Some(HandType::StraightBomb),
        classify(cards) != Some(HandType::Straight),
{
}

/// No hand may be played on a copy of itself.
pub proof fn lemma_beats_is_irreflexive(cards: Seq<Card>)
    ensures
        !beats(cards, cards),
{
}

/// Of two hands, at most one may be played on the other.
pub proof fn lemma_beats_is_asymmetric(cards: Seq<Card>, other: Seq<Card>)
    requires
        beats(cards, other),
    ensures
        !beats(other, cards),
{
}

/// A bomb may be played on every hand that is no bomb, whatever its kind,
/// size and value.
pub proof fn lemma_bomb_beats_every_other_kind(bomb: Seq<Card>, other: Seq<Card>)
    requires
        is_bomb(bomb),
        !is_bomb(other),
    ensures
        beats(bomb, other),
        !beats(other, bomb),
{
}

/// Between two regular cards, each a hand of its own, the hands go as the
/// cards go: one may be played on the other exactly when the card alone may.
pub proof fn lemma_single_cards_go_as_their_cards(card: Card, other: Card)
    requires
        card is RegularCard,
        other is RegularCard,
    ensures
        beats(seq![card], seq![other]) == (card.strength_alone() > other.strength_alone()),
{
}

/// How many of `cards` count as a number from `low` to `high`.
pub open spec fn count_in_range(cards: Seq<Card>, low: int, high: int) -> nat
    decreases cards.len(),
{
    if cards.len() == 0 {
        0
    } else {
        count_in_range(cards.drop_last(), low, high) + match cards.last().number() {
            Some(number) if low <= number <= high => 1nat,
            _ => 0nat,
        }
    }
}

/// Widening a range by one number adds the cards that count as that number.
proof fn lemma_count_in_range_grows(cards: Seq<Card>, low: int, high: int)
    requires
        low <= high,
    ensures
        count_in_range(cards, low, high) == count_in_range(cards, low, high - 1)
            + count_with_number(cards, high),
    decreases cards.len(),
{
    if cards.len() > 0 {
        lemma_count_in_range_grows(cards.drop_last(), low, high);
    }
}

/// A range that takes in every number in the hand takes in every card that
/// counts as a number.
proof fn lemma_count_in_full_range(cards: Seq<Card>, low: int, high: int)
    requires
        forall|i: int|
            0 <= i < cards.len() && (#[trigger] cards[i]).number().is_some() ==> low
                <= cards[i].number().unwrap() <= high,
    ensures
        count_in_range(cards, low, high) == numbered_count(cards),
    decreases cards.len(),
{
    if cards.len() > 0 {
        lemma_count_in_full_range(cards.drop_last(), low, high);
    }
}

/// No card counts as a number in a range that holds no number.
proof fn lemma_nothing_in_an_empty_range(cards: Seq<Card>, low: int, high: int)
    requires
        high < low,
    ensures
        count_in_range(cards, low, high) == 0,
    decreases cards.len(),
{
    if cards.len() > 0 {
        lemma_nothing_in_an_empty_range(cards.drop_last(), low, high);
    }
}

/// What it takes to pair up a range: two cards for each number, less the
/// cards that are there.
pub proof fn lemma_pairing_up_a_range(cards: Seq<Card>, low: int, high: int)
    requires
        low <= high + 1,
    ensures
        phoenixes_to_pair_up(cards, low, high) == 2 * (high - low + 1) - count_in_range(
            cards,
            low,
            high,
        ),
    decreases high - low + 1,
{
    if low <= high {
        lemma_pairing_up_a_range(cards, low, high - 1);
        lemma_count_in_range_grows(cards, low, high);
    } else {
        lemma_nothing_in_an_empty_range(cards, low, high);
    }
}

/// For a straight of pairs, the Phoenix cards that the hand needs are the
/// cards it lacks: twice the numbers from its lowest to its highest, less the
/// cards that count as a number.
pub proof fn lemma_pairs_lack_what_the_phoenix_fills(cards: Seq<Card>)
    requires
        lowest_number(cards).is_some(),
    ensures
        highest_number(cards).is_some(),
        phoenixes_to_pair_up(
            cards,
            lowest_number(cards).unwrap(),
            highest_number(cards).unwrap(),
        ) == 2 * (highest_number(cards).unwrap() - lowest_number(cards).unwrap() + 1)
            - numbered_count(cards),
{
    lemma_lowest_number(cards);
    lemma_highest_number(cards);
    let low = lowest_number(cards).unwrap();
    let high = highest_number(cards).unwrap();
    lemma_count_in_full_range(cards, low, high);
    lemma_pairing_up_a_range(cards, low, high);
}

/// For a run, the gaps between neighbours add up to the numbers that the
/// hand lacks: the numbers from its lowest to its highest, less the cards
/// that count as a number. This holds of cards in ascending order without
/// Dragon and Dog, where the cards that count as a number stand together at
/// the end; without such a card there are no gaps.
pub proof fn lemma_gaps_are_the_numbers_missing(cards: Seq<Card>)
    requires
        is_sorted(cards),
        all_play_in_company(cards),
    ensures
        lowest_number(cards).is_some() == highest_number(cards).is_some(),
        match (lowest_number(cards), highest_number(cards)) {
            (Some(low), Some(high)) => {
                &&& total_gaps(cards) == high - low + 1 - numbered_count(cards)
                &&& cards.last().number() == Some(high)
            },
            _ => total_gaps(cards) == 0 && numbered_count(cards) == 0,
        },
    decreases cards.len(),
{
    if cards.len() > 0 {
        let rest = cards.drop_last();
        let last = cards.last();
        assert(is_sorted(rest)) by {
            assert(forall|i: int, j: int|
                0 <= i < j < rest.len() ==> card_order()(cards[i], cards[j]) == card_order()(
                    #[trigger] rest[i],
                    #[trigger] rest[j],
                ));
        }
        lemma_gaps_are_the_numbers_missing(rest);
        lemma_lowest_number(rest);
        lemma_highest_number(rest);
        if rest.len() > 0 {
            assert(card_order()(rest.last(), last));
            if last.number().is_none() {
                // Only the Phoenix has no number here, and only the Phoenix
                // comes before it.
                assert(forall|i: int|
                    0 <= i < rest.len() ==> card_order()(cards[i], last) && (
                    #[trigger] rest[i]).number().is_none());
            }
        }
    }
}

} // verus!
