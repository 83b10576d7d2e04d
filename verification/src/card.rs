//! The card model: two families of cards, their values and point scores, and
//! the relation that decides which single card may be played on another.

use vstd::prelude::*;

verus! {

/// The value printed on a regular card, from `Two` (lowest) to `Ace`.
#[derive(PartialEq, Eq, PartialOrd, Ord, Debug, Copy, Clone, Structural)]
pub enum RegularCardValue {
    Two,
    Three,
    Four,
    Five,
    Six,
    Seven,
    Eight,
    Nine,
    Ten,
    Jack,
    Queen,
    King,
    Ace,
}

impl RegularCardValue {
    /// The number a value stands for: 2 for `Two`, up to 14 for `Ace`.
    pub open spec fn rank(self) -> int {
        match self {
            RegularCardValue::Two => 2,
            RegularCardValue::Three => 3,
            RegularCardValue::Four => 4,
            RegularCardValue::Five => 5,
            RegularCardValue::Six => 6,
            RegularCardValue::Seven => 7,
            RegularCardValue::Eight => 8,
            RegularCardValue::Nine => 9,
            RegularCardValue::Ten => 10,
            RegularCardValue::Jack => 11,
            RegularCardValue::Queen => 12,
            RegularCardValue::King => 13,
            RegularCardValue::Ace => 14,
        }
    }

    /// The number this value stands for, from 2 to 14.
    pub fn numeric_value(&self) -> (n: usize)
        ensures
            n == self.rank(),
    {
        match self {
            RegularCardValue::Two => 2,
            RegularCardValue::Three => 3,
            RegularCardValue::Four => 4,
            RegularCardValue::Five => 5,
            RegularCardValue::Six => 6,
            RegularCardValue::Seven => 7,
            RegularCardValue::Eight => 8,
            RegularCardValue::Nine => 9,
            RegularCardValue::Ten => 10,
            RegularCardValue::Jack => 11,
            RegularCardValue::Queen => 12,
            RegularCardValue::King => 13,
            RegularCardValue::Ace => 14,
        }
    }
}

/// The suite of a regular card. A suite carries no weight of its own; it
/// tells cards of equal value apart and decides whether a run of cards is
/// all of one suite.
#[derive(PartialEq, Eq, PartialOrd, Ord, Debug, Copy, Clone, Structural)]
pub enum RegularCardSuite {
    Heart,
    Diamond,
    Spade,
    Clubs,
}

impl RegularCardSuite {
    /// The place of a suite among the four: 0 for `Heart`, up to 3 for `Clubs`.
    pub open spec fn index(self) -> int {
        match self {
            RegularCardSuite::Heart => 0,
            RegularCardSuite::Diamond => 1,
            RegularCardSuite::Spade => 2,
            RegularCardSuite::Clubs => 3,
        }
    }
}

/// The four special cards. A full deck holds exactly one of each.
#[derive(PartialEq, Eq, PartialOrd, Ord, Debug, Copy, Clone, Structural)]
pub enum SpecialCardType {
    Dragon,
    Phoenix,
    One,
    Dog,
}

/// A card: one of the four special cards, or a regular card with a value and
/// a suite.
///
/// Cards are totally ordered by [`Card::sort_key`]: every special card comes
/// before every regular card, and regular cards go by value, then by suite.
#[derive(PartialEq, Eq, PartialOrd, Ord, Debug, Copy, Clone, Structural)]
pub enum Card {
    SpecialCard(SpecialCardType),
    RegularCard(RegularCardValue, RegularCardSuite),
}

/// A number held in a machine word, as a number.
pub open spec fn number_of(word: Option<usize>) -> Option<int> {
    match word {
        Some(number) => Some(number as int),
        None => None,
    }
}

impl Card {
    /// Whether this card is the Phoenix, the wildcard of the game.
    pub open spec fn is_phoenix(self) -> bool {
        self == Card::SpecialCard(SpecialCardType::Phoenix)
    }

    /// The value of a regular card; a special card has none.
    pub open spec fn regular_value(self) -> Option<RegularCardValue> {
        match self {
            Card::RegularCard(value, _) => Some(value),
            Card::SpecialCard(_) => None,
        }
    }

    /// The suite of a regular card; a special card has none.
    pub open spec fn regular_suite(self) -> Option<RegularCardSuite> {
        match self {
            Card::RegularCard(_, suite) => Some(suite),
            Card::SpecialCard(_) => None,
        }
    }

    /// The number a card counts as in a run: 1 for the One, the rank of a
    /// regular card, and nothing for Dragon, Phoenix and Dog.
    pub open spec fn number(self) -> Option<int> {
        match self {
            Card::SpecialCard(SpecialCardType::One) => Some(1),
            Card::RegularCard(value, _) => Some(value.rank()),
            Card::SpecialCard(_) => None,
        }
    }

    /// Whether a card may be part of a combination of several cards: every
    /// card but the Dragon and the Dog, which are played alone.
    pub open spec fn plays_in_company(self) -> bool {
        self != Card::SpecialCard(SpecialCardType::Dragon) && self != Card::SpecialCard(
            SpecialCardType::Dog,
        )
    }

    /// The points of a card: 10 for a King or a Ten, 5 for a Five, 25 for the
    /// Dragon, 25 off for the Phoenix, and nothing for any other card.
    pub open spec fn points(self) -> int {
        if self.regular_value() == Some(RegularCardValue::King) || self.regular_value() == Some(
            RegularCardValue::Ten,
        ) {
            10
        } else if self.regular_value() == Some(RegularCardValue::Five) {
            5
        } else if self == Card::SpecialCard(SpecialCardType::Dragon) {
            25
        } else if self.is_phoenix() {
            -25
        } else {
            0
        }
    }

    /// The place of a card in the total order of all 56 cards: Dragon,
    /// Phoenix, One and Dog take 0 to 3, and the regular cards follow from 4,
    /// by value first and by suite second.
    pub open spec fn sort_key(self) -> int {
        match self {
            Card::SpecialCard(SpecialCardType::Dragon) => 0,
            Card::SpecialCard(SpecialCardType::Phoenix) => 1,
            Card::SpecialCard(SpecialCardType::One) => 2,
            Card::SpecialCard(SpecialCardType::Dog) => 3,
            Card::RegularCard(value, suite) => 4 + 4 * (value.rank() - 2) + suite.index(),
        }
    }

    /// The strength of a card that is played alone: the Dog is weakest, then
    /// the One, the regular cards by their rank, the Phoenix, and the Dragon.
    pub open spec fn strength_alone(self) -> int {
        match self {
            Card::SpecialCard(SpecialCardType::Dog) => 0,
            Card::SpecialCard(SpecialCardType::One) => 1,
            Card::RegularCard(value, _) => value.rank(),
            Card::SpecialCard(SpecialCardType::Phoenix) => 15,
            Card::SpecialCard(SpecialCardType::Dragon) => 16,
        }
    }

    /// Whether the two cards can meet as single cards: any two regular cards
    /// can, and any two different cards. A deck holds each special card once,
    /// so a special card never meets itself.
    pub open spec fn can_meet(self, other: Card) -> bool {
        self is RegularCard || self != other
    }

    /// Whether this card, played alone, may be played on `other`.
    ///
    /// Of two regular cards the higher value wins. The Dragon beats every
    /// card. The Phoenix beats every regular card, the One and the Dog, and
    /// loses to the Dragon. The One beats the Dog and nothing else. The Dog
    /// beats nothing. A regular card against a special card wins exactly when
    /// the special card would not win against it.
    ///
    /// The two cards must be able to meet: a special card is not compared
    /// with itself.
    pub fn can_be_played_on_top_of_single_card(&self, other: &Card) -> (beats: bool)
        requires
            self.can_meet(*other),
        ensures
            beats == (self.strength_alone() > other.strength_alone()),
        decreases (if *self is RegularCard { 1int } else { 0int }),
    {
        match (self, other) {
            (Card::RegularCard(self_value, _), Card::RegularCard(other_value, _)) => {
                self_value.numeric_value() > other_value.numeric_value()
            },
            (Card::SpecialCard(SpecialCardType::Dragon), _) => true,
            (Card::SpecialCard(SpecialCardType::Phoenix), Card::RegularCard(_, _)) => true,
            (
                Card::SpecialCard(SpecialCardType::Phoenix),
                Card::SpecialCard(SpecialCardType::One),
            ) => true,
            (
                Card::SpecialCard(SpecialCardType::Phoenix),
                Card::SpecialCard(SpecialCardType::Dog),
            ) => true,
            (Card::SpecialCard(SpecialCardType::Phoenix), _) => false,
            (Card::SpecialCard(SpecialCardType::One), Card::SpecialCard(SpecialCardType::Dog)) => {
                true
            },
            (Card::SpecialCard(SpecialCardType::One), _) => false,
            (Card::SpecialCard(SpecialCardType::Dog), _) => false,
            // What is left is a regular card against a special card, which
            // wins where the special card does not: no card ties with it.
            (Card::RegularCard(_, _), _) => !other.can_be_played_on_top_of_single_card(self),
        }
    }

    /// Whether this card may be part of a combination of several cards.
    pub fn is_valid_in_multi_card_hand(&self) -> (valid: bool)
        ensures
            valid == self.plays_in_company(),
    {
        match self {
            Card::RegularCard(_, _) => true,
            Card::SpecialCard(SpecialCardType::Phoenix) => true,
            Card::SpecialCard(SpecialCardType::One) => true,
            _ => false,
        }
    }

    /// The value of a regular card; a special card has none.
    pub fn value(&self) -> (value: Option<RegularCardValue>)
        ensures
            value == self.regular_value(),
    {
        match self {
            Card::RegularCard(value, _) => Some(*value),
            _ => None,
        }
    }

    /// The number this card counts as in a run, if it counts as one.
    pub fn numeric_value(&self) -> (n: Option<usize>)
        ensures
            number_of(n) == self.number(),
    {
        match self {
            Card::SpecialCard(SpecialCardType::One) => Some(1),
            Card::RegularCard(value, _) => Some(value.numeric_value()),
            _ => None,
        }
    }

    /// The suite of a regular card; a special card has none.
    pub fn suite(&self) -> (suite: Option<RegularCardSuite>)
        ensures
            suite == self.regular_suite(),
    {
        match self {
            Card::RegularCard(_, suite) => Some(*suite),
            _ => None,
        }
    }

    /// The points a card is worth when a round is counted.
    pub fn score(&self) -> (points: i8)
        ensures
            points == self.points(),
    {
        match self {
            Card::RegularCard(RegularCardValue::King, _) => 10,
            Card::RegularCard(RegularCardValue::Ten, _) => 10,
            Card::RegularCard(RegularCardValue::Five, _) => 5,
            Card::SpecialCard(SpecialCardType::Dragon) => 25,
            Card::SpecialCard(SpecialCardType::Phoenix) => -25,
            _ => 0,
        }
    }
}

} // verus!
