//! What makes a combination. Every predicate here is stated of a sequence of
//! cards in ascending order, which is how a hand keeps its cards: a Phoenix,
//! if there is one, stands before every regular card.

use vstd::prelude::*;
use crate::card::{Card, RegularCardSuite, RegularCardValue};
use crate::hand::HandType;

verus! {

/// How many of `cards` are the Phoenix.
pub open spec fn phoenix_count(cards: Seq<Card>) -> nat
    decreases cards.len(),
{
    if cards.len() == 0 {
        0
    } else {
        phoenix_count(cards.drop_last()) + if cards.last().is_phoenix() {
            1nat
        } else {
            0nat
        }
    }
}

/// How many of `cards` count as `number` in a run.
pub open spec fn count_with_number(cards: Seq<Card>, number: int) -> nat
    decreases cards.len(),
{
    if cards.len() == 0 {
        0
    } else {
        count_with_number(cards.drop_last(), number) + if cards.last().number() == Some(number) {
            1nat
        } else {
            0nat
        }
    }
}

/// How many of `cards` count as a number at all.
pub open spec fn numbered_count(cards: Seq<Card>) -> nat
    decreases cards.len(),
{
    if cards.len() == 0 {
        0
    } else {
        numbered_count(cards.drop_last()) + if cards.last().number().is_some() {
            1nat
        } else {
            0nat
        }
    }
}

/// The smallest number that a card of `cards` counts as, if any card has one.
pub open spec fn lowest_number(cards: Seq<Card>) -> Option<int>
    decreases cards.len(),
{
    if cards.len() == 0 {
        None
    } else {
        match (lowest_number(cards.drop_last()), cards.last().number()) {
            (Some(low), Some(number)) => Some(if number < low { number } else { low }),
            (Some(low), None) => Some(low),
            (None, number) => number,
        }
    }
}

/// The greatest number that a card of `cards` counts as, if any card has one.
pub open spec fn highest_number(cards: Seq<Card>) -> Option<int>
    decreases cards.len(),
{
    if cards.len() == 0 {
        None
    } else {
        match (highest_number(cards.drop_last()), cards.last().number()) {
            (Some(high), Some(number)) => Some(if number > high { number } else { high }),
            (Some(high), None) => Some(high),
            (None, number) => number,
        }
    }
}

/// The lowest number is the number of some card, and no card has a lower
/// one; without a card that has a number, there is none.
pub proof fn lemma_lowest_number(cards: Seq<Card>)
    ensures
        match lowest_number(cards) {
            Some(low) => {
                &&& exists|i: int|
                    0 <= i < cards.len() && (#[trigger] cards[i]).number() == Some(low)
                &&& forall|i: int|
                    0 <= i < cards.len() && (#[trigger] cards[i]).number().is_some() ==> low
                        <= cards[i].number().unwrap()
            },
            None => forall|i: int|
                0 <= i < cards.len() ==> (#[trigger] cards[i]).number().is_none(),
        },
    decreases cards.len(),
{
    if cards.len() > 0 {
        let rest = cards.drop_last();
        lemma_lowest_number(rest);
        // What holds of the cards before the last holds of them in `cards`.
        assert(forall|i: int| 0 <= i < rest.len() ==> rest[i] == cards[i]);
    }
}

/// The highest number is the number of some card, and no card has a higher
/// one; without a card that has a number, there is none.
pub proof fn lemma_highest_number(cards: Seq<Card>)
    ensures
        match highest_number(cards) {
            Some(high) => {
                &&& exists|i: int|
                    0 <= i < cards.len() && (#[trigger] cards[i]).number() == Some(high)
                &&& forall|i: int|
                    0 <= i < cards.len() && (#[trigger] cards[i]).number().is_some() ==> high
                        >= cards[i].number().unwrap()
            },
            None => forall|i: int|
                0 <= i < cards.len() ==> (#[trigger] cards[i]).number().is_none(),
        },
    decreases cards.len(),
{
    if cards.len() > 0 {
        let rest = cards.drop_last();
        lemma_highest_number(rest);
        // What holds of the cards before the last holds of them in `cards`.
        assert(forall|i: int| 0 <= i < rest.len() ==> rest[i] == cards[i]);
    }
}

/// Whether every card of `cards` may be part of a combination of several
/// cards.
pub open spec fn all_play_in_company(cards: Seq<Card>) -> bool {
    forall|i: int| 0 <= i < cards.len() ==> (#[trigger] cards[i]).plays_in_company()
}

/// Whether `a` and `b` are regular cards of one value.
pub open spec fn same_regular_value(a: Card, b: Card) -> bool {
    a.regular_value().is_some() && a.regular_value() == b.regular_value()
}

/// Four regular cards of one value. The Phoenix cannot stand in.
pub open spec fn is_quadruple_bomb(cards: Seq<Card>) -> bool {
    &&& cards.len() == 4
    &&& same_regular_value(cards[0], cards[1])
    &&& same_regular_value(cards[0], cards[2])
    &&& same_regular_value(cards[0], cards[3])
}

/// Exactly one card.
pub open spec fn is_single_card(cards: Seq<Card>) -> bool {
    cards.len() == 1
}

/// Two regular cards of one value, or the Phoenix with any regular card.
pub open spec fn is_pair(cards: Seq<Card>) -> bool {
    &&& cards.len() == 2
    &&& cards[1].regular_value().is_some()
    &&& cards[0].is_phoenix() || same_regular_value(cards[0], cards[1])
}

/// Three regular cards of one value, or the Phoenix with two regular cards of
/// one value.
pub open spec fn is_triple(cards: Seq<Card>) -> bool {
    &&& cards.len() == 3
    &&& same_regular_value(cards[1], cards[2])
    &&& cards[0].is_phoenix() || same_regular_value(cards[0], cards[1])
}

/// The numbers missing between two neighbours where both count as a number;
/// nothing where one of them does not.
pub open spec fn gap_between(left: Card, right: Card) -> int {
    match (left.number(), right.number()) {
        (Some(low), Some(high)) => high - low - 1,
        _ => 0,
    }
}

/// The sum of `gap_between` over every two neighbours in `cards`: how many
/// cards a run through them lacks.
pub open spec fn total_gaps(cards: Seq<Card>) -> int
    decreases cards.len(),
{
    if cards.len() < 2 {
        0
    } else {
        total_gaps(cards.drop_last()) + gap_between(cards[cards.len() - 2], cards.last())
    }
}

/// Whether some two neighbours in `cards` count as the same number.
pub open spec fn has_equal_neighbours(cards: Seq<Card>) -> bool {
    exists|i: int|
        0 <= i < cards.len() - 1 && (#[trigger] cards[i]).number().is_some() && cards[i].number()
            == cards[i + 1].number()
}

/// At least five cards, no two neighbours of the same number, and no more
/// numbers missing between neighbours than there are Phoenix cards to fill
/// them.
pub open spec fn is_straight(cards: Seq<Card>) -> bool {
    &&& cards.len() >= 5
    &&& !has_equal_neighbours(cards)
    &&& total_gaps(cards) <= phoenix_count(cards)
}

/// Whether every card of `cards` is a regular card of the suite `suite`.
pub open spec fn all_of_suite(cards: Seq<Card>, suite: RegularCardSuite) -> bool {
    forall|i: int| 0 <= i < cards.len() ==> (#[trigger] cards[i]).regular_suite() == Some(suite)
}

/// A straight without a Phoenix whose cards are all of one suite.
pub open spec fn is_straight_bomb(cards: Seq<Card>) -> bool {
    &&& is_straight(cards)
    &&& phoenix_count(cards) == 0
    &&& exists|suite: RegularCardSuite| all_of_suite(cards, suite)
}

/// How many Phoenix cards it takes to bring every number from `low` to
/// `high` up to two cards: the sum, over these numbers, of two less the
/// cards that count as it.
pub open spec fn phoenixes_to_pair_up(cards: Seq<Card>, low: int, high: int) -> int
    decreases high - low + 1,
{
    if high < low {
        0
    } else {
        phoenixes_to_pair_up(cards, low, high - 1) + 2 - count_with_number(cards, high)
    }
}

/// Whether no number from `low` to `high` has more than two cards.
pub open spec fn at_most_pairs(cards: Seq<Card>, low: int, high: int) -> bool {
    forall|number: int| low <= number <= high ==> #[trigger] count_with_number(cards, number) <= 2
}

/// Over the range from the lowest to the highest number in the hand, every
/// number has two cards, a Phoenix making up for each card that is missing.
/// A number with more than two cards, or a hand without any number, is no
/// straight of pairs.
pub open spec fn is_straight_of_pairs(cards: Seq<Card>) -> bool {
    match (lowest_number(cards), highest_number(cards)) {
        (Some(low), Some(high)) => {
            &&& at_most_pairs(cards, low, high)
            &&& phoenixes_to_pair_up(cards, low, high) <= phoenix_count(cards)
        },
        _ => false,
    }
}

/// Five cards that part into three of one value and two of another. They are
/// five regular cards, or the Phoenix with four regular cards, where it
/// stands in for one card of the three or of the two.
pub open spec fn is_full_house(cards: Seq<Card>) -> bool {
    let value = |i: int| cards[i].regular_value();
    &&& cards.len() == 5
    &&& value(1).is_some() && value(2).is_some() && value(3).is_some() && value(4).is_some()
    &&& if cards[0].is_phoenix() {
        &&& value(1) != value(4)
        &&& {
            ||| value(1) == value(2) && value(2) == value(3)
            ||| value(1) == value(2) && value(3) == value(4)
            ||| value(2) == value(3) && value(3) == value(4)
        }
    } else {
        &&& value(0).is_some()
        &&& value(0) != value(4)
        &&& value(0) == value(1) && value(3) == value(4)
        &&& value(2) == value(1) || value(2) == value(3)
    }
}

/// The combination that `cards` form, if they form one.
///
/// Several cards with a Dragon or a Dog among them form none. Otherwise the
/// kinds are tried in a fixed order and the first that fits is the answer, so
/// that a bomb is always told as a bomb.
pub open spec fn classify(cards: Seq<Card>) -> Option<HandType> {
    if cards.len() > 1 && !all_play_in_company(cards) {
        None
    } else if is_quadruple_bomb(cards) {
        Some(HandType::QuadrupleBomb)
    } else if is_straight_bomb(cards) {
        Some(HandType::StraightBomb)
    } else if is_single_card(cards) {
        Some(HandType::SingleCard)
    } else if is_pair(cards) {
        Some(HandType::Pair)
    } else if is_triple(cards) {
        Some(HandType::Triple)
    } else if is_straight(cards) {
        Some(HandType::Straight)
    } else if is_straight_of_pairs(cards) {
        Some(HandType::StraightOfPairs)
    } else if is_full_house(cards) {
        Some(HandType::FullHouse)
    } else {
        None
    }
}

/// Whether `cards` form one of the two bombs.
pub open spec fn is_bomb(cards: Seq<Card>) -> bool {
    classify(cards) == Some(HandType::QuadrupleBomb) || classify(cards) == Some(
        HandType::StraightBomb,
    )
}

/// The value by which a combination is measured against another of its kind.
///
/// For a full house it is the value of the three: of the card in the middle,
/// or, where the Phoenix stands first, of the card after the middle. For
/// every other kind it is the value of the last and highest card. Cards that
/// form no combination have none, and neither has a combination whose
/// deciding card is a special card.
pub open spec fn relevant_value(cards: Seq<Card>) -> Option<RegularCardValue> {
    match classify(cards) {
        None => None,
        Some(HandType::FullHouse) => if cards[0].is_phoenix() {
            cards[3].regular_value()
        } else {
            cards[2].regular_value()
        },
        Some(_) => cards.last().regular_value(),
    }
}

/// Whether both hands have a relevant value and that of `cards` is the
/// higher.
pub open spec fn has_higher_value(cards: Seq<Card>, other: Seq<Card>) -> bool {
    match (relevant_value(cards), relevant_value(other)) {
        (Some(value), Some(other_value)) => value.rank() > other_value.rank(),
        _ => false,
    }
}

/// Whether `cards` may be played on `other`.
///
/// A bomb may be played on anything that is no bomb, and on a bomb of fewer
/// cards, or of as many cards and a lower value. Anything else may be played
/// only on a combination of its own kind and size, and of a lower value.
pub open spec fn beats(cards: Seq<Card>, other: Seq<Card>) -> bool {
    if is_bomb(cards) {
        if is_bomb(other) {
            cards.len() > other.len() || (cards.len() == other.len() && has_higher_value(
                cards,
                other,
            ))
        } else {
            true
        }
    } else {
        classify(cards) == classify(other) && cards.len() == other.len() && has_higher_value(
            cards,
            other,
        )
    }
}

} // verus!
