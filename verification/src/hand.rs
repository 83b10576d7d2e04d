//! Hands: cards put in order, the combination they form, and which hand may
//! be played on which.

use std::collections::HashMap;
use vstd::prelude::*;
use crate::card::{number_of, Card, RegularCardValue, SpecialCardType};
use crate::combination::{
    all_of_suite, all_play_in_company, beats, classify, count_with_number,
    has_equal_neighbours, has_higher_value, highest_number, is_bomb, is_full_house, is_pair,
    is_quadruple_bomb, is_single_card, is_straight, is_straight_bomb, is_straight_of_pairs,
    is_triple, lemma_highest_number, lemma_lowest_number, lowest_number, phoenix_count,
    phoenixes_to_pair_up, relevant_value, same_regular_value, total_gaps,
};
use crate::order::{card_order, is_sorted, sort_cards, sorted_cards};
use crate::runs::{
    chunk_by_number, chunk_size, is_chunking, lemma_chunk_holds_all_of_number,
    lemma_counted_number_has_chunk, lemma_counted_number_occurs, lemma_numbers_follow_order,
};

verus! {

/// The kinds of combination.
#[derive(PartialEq, Eq, Debug, Copy, Clone, Structural)]
pub enum HandType {
    SingleCard,
    Pair,
    Triple,
    Straight,
    StraightOfPairs,
    FullHouse,
    QuadrupleBomb,
    StraightBomb,
}

/// Cards offered as one combination, kept in ascending order.
#[derive(PartialEq, Eq, Debug)]
pub struct Hand(Vec<Card>);

impl View for Hand {
    type V = Seq<Card>;

    /// The cards of the hand, lowest first.
    closed spec fn view(&self) -> Seq<Card> {
        self.0@
    }
}

impl Hand {
    #[verifier::type_invariant]
    spec fn in_order(self) -> bool {
        is_sorted(self.0@)
    }

    /// Makes a hand of `cards`, in whatever order they are given.
    pub fn new(cards: Vec<Card>) -> (hand: Hand)
        ensures
            hand@ == sorted_cards(cards@),
            is_sorted(hand@),
            hand@.to_multiset() == cards@.to_multiset(),
            is_sorted(cards@) ==> hand@ == cards@,
    {
        proof {
            if is_sorted(cards@) {
                crate::order::lemma_sorted_cards(cards@);
                crate::order::lemma_sorted_is_unique(cards@, sorted_cards(cards@));
            }
        }
        Hand(sort_cards(cards))
    }

    /// Makes a hand of one card.
    pub fn single_card(card: Card) -> (hand: Hand)
        ensures
            hand@ == seq![card],
    {
        let mut cards: Vec<Card> = Vec::new();
        cards.push(card);
        Hand(cards)
    }

    /// The cards of the hand, lowest first.
    pub fn cards(&self) -> (cards: &Vec<Card>)
        ensures
            cards@ == self@,
            is_sorted(cards@),
    {
        proof {
            use_type_invariant(self);
        }
        &self.0
    }

    /// The combination that the hand forms, if it forms one.
    ///
    /// A hand of several cards with a Dragon or a Dog among them forms none.
    pub fn hand_type(&self) -> (kind: Option<HandType>)
        ensures
            kind == classify(self@),
            self@.len() > 1 && (self@.contains(Card::SpecialCard(SpecialCardType::Dragon))
                || self@.contains(Card::SpecialCard(SpecialCardType::Dog))) ==> kind.is_none(),
    {
        if self.0.len() > 1 && !self.all_valid_in_multi_card_hand() {
            return None;
        }
        if self.is_valid_quadruple_bomb() {
            Some(HandType::QuadrupleBomb)
        } else if self.is_valid_straight_bomb() {
            Some(HandType::StraightBomb)
        } else if self.is_valid_single_card() {
            Some(HandType::SingleCard)
        } else if self.is_valid_pair() {
            Some(HandType::Pair)
        } else if self.is_valid_triple() {
            Some(HandType::Triple)
        } else if self.is_valid_straight() {
            Some(HandType::Straight)
        } else if self.is_valid_straight_of_pairs() {
            Some(HandType::StraightOfPairs)
        } else if self.is_valid_full_house() {
            Some(HandType::FullHouse)
        } else {
            None
        }
    }

    /// Whether the hand is four regular cards of one value.
    pub fn is_valid_quadruple_bomb(&self) -> (valid: bool)
        ensures
            valid == is_quadruple_bomb(self@),
    {
        self.0.len() == 4 && self.same_value_at(0, 1) && self.same_value_at(0, 2)
            && self.same_value_at(0, 3)
    }

    /// Whether the hand is a straight without a Phoenix, all of one suite.
    pub fn is_valid_straight_bomb(&self) -> (valid: bool)
        ensures
            valid == is_straight_bomb(self@),
    {
        if !(self.is_valid_straight() && self.num_phoenices() == 0) {
            return false;
        }
        let suite = match self.0[0].suite() {
            Some(suite) => suite,
            None => {
                // The first card is of no suite.
                assert(self@[0].regular_suite().is_none());
                return false;
            },
        };
        let mut at: usize = 1;
        while at < self.0.len()
            invariant
                1 <= at <= self.0.len(),
                self.0@[0].regular_suite() == Some(suite),
                forall|i: int|
                    0 <= i < at ==> (#[trigger] self.0@[i]).regular_suite() == Some(suite),
            decreases self.0.len() - at,
        {
            if self.0[at].suite() != Some(suite) {
                // This card is not of the suite of the first.
                assert(self@[at as int].regular_suite() != self@[0].regular_suite());
                return false;
            }
            at += 1;
        }
        assert(all_of_suite(self@, suite));
        true
    }

    /// Whether the hand is exactly one card.
    pub fn is_valid_single_card(&self) -> (valid: bool)
        ensures
            valid == is_single_card(self@),
    {
        self.0.len() == 1
    }

    /// Whether the hand is two regular cards of one value, or the Phoenix
    /// with a regular card.
    pub fn is_valid_pair(&self) -> (valid: bool)
        ensures
            valid == is_pair(self@),
    {
        self.0.len() == 2 && self.0[1].value().is_some() && (self.is_phoenix_at(0)
            || self.same_value_at(0, 1))
    }

    /// Whether the hand is three regular cards of one value, or the Phoenix
    /// with two regular cards of one value.
    pub fn is_valid_triple(&self) -> (valid: bool)
        ensures
            valid == is_triple(self@),
    {
        self.0.len() == 3 && self.same_value_at(1, 2) && (self.is_phoenix_at(0)
            || self.same_value_at(0, 1))
    }

    /// Whether the hand is a run of five cards or more: no number twice, and
    /// no more numbers missing between neighbours than the hand has Phoenix
    /// cards.
    pub fn is_valid_straight(&self) -> (valid: bool)
        ensures
            valid == is_straight(self@),
    {
        proof {
            use_type_invariant(self);
        }
        if self.0.len() < 5 {
            return false;
        }
        let mut at: usize = 1;
        while at < self.0.len()
            invariant
                1 <= at <= self.0.len(),
                forall|i: int|
                    0 <= i < at - 1 ==> !((#[trigger] self.0@[i]).number().is_some()
                        && self.0@[i].number() == self.0@[i + 1].number()),
            decreases self.0.len() - at,
        {
            match (self.0[at - 1].numeric_value(), self.0[at].numeric_value()) {
                (Some(left), Some(right)) => {
                    if left == right {
                        return false;
                    }
                },
                _ => {},
            }
            at += 1;
        }

        let num_phoenices = self.num_phoenices();
        let mut num_phoenices_needed: usize = 0;
        let mut at: usize = 1;
        while at < self.0.len()
            invariant
                1 <= at <= self.0.len(),
                is_sorted(self.0@),
                !has_equal_neighbours(self.0@),
                num_phoenices_needed == total_gaps(self.0@.take(at as int)),
                num_phoenices_needed <= 14,
                forall|k: int|
                    at - 1 <= k < self.0.len() && (#[trigger] self.0@[k]).number().is_some()
                        ==> num_phoenices_needed <= self.0@[k].number().unwrap(),
            decreases self.0.len() - at,
        {
            let ghost left_card = self.0@[at - 1];
            let ghost right_card = self.0@[at as int];
            proof {
                let next = self.0@.take(at + 1);
                assert(next.drop_last() == self.0@.take(at as int));
                assert(card_order()(left_card, right_card));
                lemma_numbers_follow_order(left_card, right_card, right_card);
            }
            match (self.0[at - 1].numeric_value(), self.0[at].numeric_value()) {
                (Some(left), Some(right)) => {
                    proof {
                        assert forall|k: int|
                            at <= k < self.0.len() && (#[trigger] self.0@[k]).number().is_some()
                            implies right <= self.0@[k].number().unwrap() by {
                            if at < k {
                                assert(card_order()(right_card, self.0@[k]));
                            }
                            lemma_numbers_follow_order(right_card, self.0@[k], self.0@[k]);
                        }
                    }
                    num_phoenices_needed += right - left - 1;
                },
                _ => {},
            }
            at += 1;
        }
        assert(self.0@.take(at as int) == self.0@);
        num_phoenices >= num_phoenices_needed
    }

    /// Whether the hand is pairs in a row: over the range from its lowest to
    /// its highest number, no number has more than two cards, and the hand
    /// has a Phoenix for every card that is missing from two of each.
    pub fn is_valid_straight_of_pairs(&self) -> (valid: bool)
        ensures
            valid == is_straight_of_pairs(self@),
    {
        broadcast use vstd::std_specs::hash::group_hash_axioms;

        let num_phoenices = self.num_phoenices();
        let (first_value, last_value) = match (self.first_number(), self.last_number()) {
            (Some(first_value), Some(last_value)) => (first_value, last_value),
            _ => {
                return false;
            },
        };
        proof {
            lemma_lowest_number(self@);
            lemma_highest_number(self@);
        }

        let num_cards_by_value = match self.num_cards_by_value() {
            Some(num_cards_by_value) => num_cards_by_value,
            None => {
                proof {
                    // The number with more than two cards is the number of a
                    // card, so it lies in the range.
                    let number = choose|number: int| #[trigger]
                        count_with_number(self@, number) > 2;
                    lemma_counted_number_occurs(self@, number);
                }
                return false;
            },
        };

        let mut num_phoenices_needed: usize = 0;
        let mut value: usize = first_value;
        while value <= last_value
            invariant
                1 <= first_value <= value <= last_value + 1 <= 15,
                num_phoenices_needed == phoenixes_to_pair_up(self@, first_value as int, value - 1),
                num_phoenices_needed <= 2 * (value - first_value),
                forall|value: usize| #[trigger]
                    num_cards_by_value@.contains_key(value) ==> num_cards_by_value@[value]
                        == count_with_number(self@, value as int),
                forall|number: int| #[trigger]
                    count_with_number(self@, number) > 0 ==> {
                        &&& 0 <= number <= usize::MAX
                        &&& num_cards_by_value@.contains_key(number as usize)
                        &&& count_with_number(self@, number) <= 2
                    },
            decreases last_value + 1 - value,
        {
            let num_cards_for_current_value: usize = match num_cards_by_value.get(&value) {
                Some(count) => *count,
                None => 0,
            };
            num_phoenices_needed += 2 - num_cards_for_current_value;
            value += 1;
        }
        num_phoenices >= num_phoenices_needed
    }

    /// Whether the hand is three cards of one value with two of another, the
    /// Phoenix standing in for at most one of the five.
    pub fn is_valid_full_house(&self) -> (valid: bool)
        ensures
            valid == is_full_house(self@),
    {
        if self.0.len() != 5 {
            return false;
        }
        match (
            self.0[0],
            self.0[1].value(),
            self.0[2].value(),
            self.0[3].value(),
            self.0[4].value(),
        ) {
            (
                Card::RegularCard(value1, _),
                Some(value2),
                Some(value3),
                Some(value4),
                Some(value5),
            ) => {
                value1 == value2 && value4 == value5 && (value3 == value2 || value3 == value4)
                    && value1 != value5
            },
            (
                Card::SpecialCard(SpecialCardType::Phoenix),
                Some(value1),
                Some(value2),
                Some(value3),
                Some(value4),
            ) => {
                ((value1 == value2 && value2 == value3) || (value1 == value2 && value3 == value4)
                    || (value2 == value3 && value3 == value4)) && value1 != value4
            },
            _ => false,
        }
    }

    /// How many cards of the hand are the Phoenix.
    pub fn num_phoenices(&self) -> (count: usize)
        ensures
            count == phoenix_count(self@),
    {
        let mut count: usize = 0;
        let mut at: usize = 0;
        while at < self.0.len()
            invariant
                at <= self.0.len(),
                count <= at,
                count == phoenix_count(self.0@.take(at as int)),
            decreases self.0.len() - at,
        {
            assert(self.0@.take(at + 1).drop_last() == self.0@.take(at as int));
            if self.0[at] == Card::SpecialCard(SpecialCardType::Phoenix) {
                count += 1;
            }
            at += 1;
        }
        assert(self.0@.take(at as int) == self.0@);
        count
    }

    /// The value by which the hand is measured against another of its kind.
    ///
    /// It is the value of the last card, but for a full house, where it is
    /// the value of the three. A hand that forms no combination has none, and
    /// neither has one whose deciding card is a special card.
    pub fn relevant_card_value(&self) -> (value: Option<RegularCardValue>)
        ensures
            value == relevant_value(self@),
    {
        match self.hand_type() {
            None => None,
            Some(HandType::FullHouse) => match self.0[0] {
                Card::RegularCard(_, _) => self.0[2].value(),
                _ => self.0[3].value(),
            },
            Some(_) => self.0[self.0.len() - 1].value(),
        }
    }

    /// Whether the hand is one of the two bombs.
    pub fn is_bomb(&self) -> (bomb: bool)
        ensures
            bomb == is_bomb(self@),
    {
        match self.hand_type() {
            Some(HandType::StraightBomb) | Some(HandType::QuadrupleBomb) => true,
            _ => false,
        }
    }

    /// Whether both hands have a relevant value and this hand's is the
    /// higher.
    pub fn higher_value_than(&self, other: &Hand) -> (higher: bool)
        ensures
            higher == has_higher_value(self@, other@),
    {
        match (self.relevant_card_value(), other.relevant_card_value()) {
            (Some(self_value), Some(other_value)) => {
                self_value.numeric_value() > other_value.numeric_value()
            },
            _ => false,
        }
    }

    /// Whether this hand may be played on `other`.
    ///
    /// A bomb may be played on anything that is no bomb, and on a bomb of
    /// fewer cards, or of as many cards and a lower value. Any other hand may
    /// be played only on a combination of its own kind and size, and of a
    /// lower value. No hand may be played on a copy of itself.
    pub fn can_be_played_on(&self, other: &Hand) -> (playable: bool)
        ensures
            playable == beats(self@, other@),
            self@ == other@ ==> !playable,
    {
        if self.is_bomb() {
            if other.is_bomb() {
                self.0.len() > other.0.len() || (self.0.len() == other.0.len()
                    && self.higher_value_than(other))
            } else {
                true
            }
        } else {
            self.hand_type() == other.hand_type() && self.0.len() == other.0.len()
                && self.higher_value_than(other)
        }
    }

    /// Whether every card of the hand may be part of a combination of
    /// several cards.
    fn all_valid_in_multi_card_hand(&self) -> (valid: bool)
        ensures
            valid == all_play_in_company(self@),
    {
        let mut at: usize = 0;
        while at < self.0.len()
            invariant
                at <= self.0.len(),
                forall|i: int| 0 <= i < at ==> (#[trigger] self.0@[i]).plays_in_company(),
            decreases self.0.len() - at,
        {
            if !self.0[at].is_valid_in_multi_card_hand() {
                return false;
            }
            at += 1;
        }
        true
    }

    /// Whether the cards at `left` and `right` are regular cards of one
    /// value.
    fn same_value_at(&self, left: usize, right: usize) -> (same: bool)
        requires
            left < self@.len(),
            right < self@.len(),
        ensures
            same == same_regular_value(self@[left as int], self@[right as int]),
    {
        match (self.0[left].value(), self.0[right].value()) {
            (Some(left_value), Some(right_value)) => left_value == right_value,
            _ => false,
        }
    }

    /// Whether the card at `at` is the Phoenix.
    fn is_phoenix_at(&self, at: usize) -> (phoenix: bool)
        requires
            at < self@.len(),
        ensures
            phoenix == self@[at as int].is_phoenix(),
    {
        self.0[at] == Card::SpecialCard(SpecialCardType::Phoenix)
    }

    /// The number of the first card that counts as one: the lowest in the
    /// hand.
    fn first_number(&self) -> (low: Option<usize>)
        ensures
            number_of(low) == lowest_number(self@),
    {
        proof {
            use_type_invariant(self);
        }
        let mut at: usize = 0;
        while at < self.0.len()
            invariant
                at <= self.0.len(),
                is_sorted(self.0@),
                forall|i: int| 0 <= i < at ==> (#[trigger] self.0@[i]).number().is_none(),
            decreases self.0.len() - at,
        {
            let number = self.0[at].numeric_value();
            if number.is_some() {
                proof {
                    lemma_lowest_number(self.0@);
                    assert forall|i: int|
                        0 <= i < self.0@.len() && (#[trigger] self.0@[i]).number().is_some()
                        implies number.unwrap() <= self.0@[i].number().unwrap() by {
                        if at < i {
                            assert(card_order()(self.0@[at as int], self.0@[i]));
                            lemma_numbers_follow_order(self.0@[at as int], self.0@[i], self.0@[i]);
                        }
                    }
                }
                return number;
            }
            at += 1;
        }
        proof {
            lemma_lowest_number(self.0@);
        }
        None
    }

    /// The number of the last card that counts as one: the highest in the
    /// hand.
    fn last_number(&self) -> (high: Option<usize>)
        ensures
            number_of(high) == highest_number(self@),
    {
        proof {
            use_type_invariant(self);
        }
        let mut at: usize = self.0.len();
        while at > 0
            invariant
                at <= self.0.len(),
                is_sorted(self.0@),
                forall|i: int|
                    at <= i < self.0.len() ==> (#[trigger] self.0@[i]).number().is_none(),
            decreases at,
        {
            at -= 1;
            let number = self.0[at].numeric_value();
            if number.is_some() {
                proof {
                    lemma_highest_number(self.0@);
                    assert forall|i: int|
                        0 <= i < self.0@.len() && (#[trigger] self.0@[i]).number().is_some()
                        implies number.unwrap() >= self.0@[i].number().unwrap() by {
                        if i < at {
                            assert(card_order()(self.0@[i], self.0@[at as int]));
                            lemma_numbers_follow_order(
                                self.0@[i],
                                self.0@[at as int],
                                self.0@[at as int],
                            );
                        }
                    }
                }
                return number;
            }
        }
        proof {
            lemma_highest_number(self.0@);
        }
        None
    }

    /// For each number that cards of the hand count as, how many do; or
    /// nothing, if more than two cards count as some number.
    fn num_cards_by_value(&self) -> (table: Option<HashMap<usize, usize>>)
        ensures
            match table {
                Some(num_cards) => forall|number: int| #[trigger]
                    count_with_number(self@, number) > 0 ==> {
                        &&& 0 <= number <= usize::MAX
                        &&& num_cards@.contains_key(number as usize)
                        &&& count_with_number(self@, number) <= 2
                    },
                None => exists|number: int| #[trigger] count_with_number(self@, number) > 2,
            },
            table matches Some(num_cards) ==> forall|value: usize| #[trigger]
                num_cards@.contains_key(value) ==> num_cards@[value] == count_with_number(
                    self@,
                    value as int,
                ),
    {
        broadcast use vstd::std_specs::hash::group_hash_axioms;

        proof {
            use_type_invariant(self);
        }
        let chunks = chunk_by_number(&self.0);
        let mut num_cards: HashMap<usize, usize> = HashMap::new();
        let mut seen: usize = 0;
        while seen < chunks.len()
            invariant
                seen <= chunks.len(),
                is_sorted(self.0@),
                is_chunking(self.0@, chunks@),
                forall|value: usize| #[trigger]
                    num_cards@.contains_key(value) ==> num_cards@[value] == count_with_number(
                        self.0@,
                        value as int,
                    ),
                forall|j: int|
                    0 <= j < seen && (#[trigger] chunks@[j]).0.is_some() ==> chunk_size(chunks@[j])
                        <= 2 && num_cards@.contains_key(chunks@[j].0.unwrap()),
            decreases chunks.len() - seen,
        {
            let size = chunks[seen].1.len();
            if let Some(value) = chunks[seen].0 {
                proof {
                    lemma_chunk_holds_all_of_number(self.0@, chunks@, seen as int);
                }
                if size > 2 {
                    assert(count_with_number(self@, value as int) > 2);
                    return None;
                }
                num_cards.insert(value, size);
            }
            seen += 1;
        }
        proof {
            assert forall|number: int| #[trigger]
                count_with_number(self.0@, number) > 0 implies 0 <= number <= usize::MAX
                && num_cards@.contains_key(number as usize) && count_with_number(self.0@, number)
                <= 2 by {
                let j = lemma_counted_number_has_chunk(self.0@, chunks@, number);
                lemma_chunk_holds_all_of_number(self.0@, chunks@, j);
            }
        }
        Some(num_cards)
    }
}

} // verus!
