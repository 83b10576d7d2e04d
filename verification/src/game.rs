//! The deck and the hands dealt from it.

use rand::seq::SliceRandom;
use vstd::prelude::*;
use crate::card::{Card, RegularCardSuite, RegularCardValue, SpecialCardType};
use crate::order::{is_sorted, lemma_sort_key_injective, sort_cards, sorted_cards};

verus! {

/// `rand_chacha::ChaCha8Rng`, the random number generator that decks are
/// shuffled with, made known to Verus as a type of which it sees nothing
/// inside.
#[verifier::external_type_specification]
#[verifier::external_body]
pub struct ExChaCha8Rng(rand_chacha::ChaCha8Rng);

/// How many cards each player is dealt.
pub const NUM_CARDS_PER_PLAYER: usize = 14;

/// How many players there are.
pub const NUM_PLAYERS: usize = 4;

/// How many cards there are: four special cards, and thirteen values in each
/// of four suites.
pub const NUM_CARDS: usize = 56;

/// Whether `cards` are all the cards there are, each once, in ascending
/// order.
pub open spec fn is_every_card_in_order(cards: Seq<Card>) -> bool {
    &&& cards.len() == NUM_CARDS
    &&& forall|i: int| 0 <= i < cards.len() ==> (#[trigger] cards[i]).sort_key() == i
}

/// Whether `cards` hold every card there is exactly once, in any order.
pub open spec fn holds_every_card_once(cards: Seq<Card>) -> bool {
    forall|card: Card| #[trigger] cards.to_multiset().count(card) == 1
}

/// All the cards in ascending order hold every card exactly once, and so do
/// the same cards in any other order.
pub proof fn lemma_every_card_once(cards: Seq<Card>, shuffled: Seq<Card>)
    requires
        is_every_card_in_order(cards),
        shuffled.to_multiset() == cards.to_multiset(),
    ensures
        holds_every_card_once(shuffled),
        shuffled.len() == NUM_CARDS,
{
    vstd::seq_lib::to_multiset_len(cards);
    vstd::seq_lib::to_multiset_len(shuffled);
    // Cards at different places have different sort keys.
    assert(cards.no_duplicates());
    cards.lemma_multiset_has_no_duplicates();
    assert forall|card: Card| #[trigger] cards.to_multiset().count(card) == 1 by {
        lemma_sort_key_injective(card, cards[card.sort_key()]);
        vstd::seq_lib::to_multiset_contains(cards, card);
    }
}

/// Cards that hold every card once hold no card twice.
pub proof fn lemma_every_card_once_is_no_card_twice(cards: Seq<Card>)
    requires
        holds_every_card_once(cards),
    ensures
        cards.no_duplicates(),
{
    cards.lemma_multiset_has_no_duplicates_conv();
}

/// Where no card is there twice, any two of the cards can meet as single
/// cards: no special card is ever held against itself.
pub proof fn lemma_cards_of_a_deck_can_meet(cards: Seq<Card>, i: int, j: int)
    requires
        cards.no_duplicates(),
        0 <= i < cards.len(),
        0 <= j < cards.len(),
        i != j,
    ensures
        cards[i].can_meet(cards[j]),
{
}

/// Sorting cards of which none is there twice gives cards of which none is
/// there twice.
proof fn lemma_sorting_adds_no_card(cards: Seq<Card>)
    requires
        cards.no_duplicates(),
    ensures
        sorted_cards(cards).no_duplicates(),
{
    crate::order::lemma_sorted_cards(cards);
    cards.lemma_multiset_has_no_duplicates();
    sorted_cards(cards).lemma_multiset_has_no_duplicates_conv();
}

/// The fourteen cards of one player, in ascending order.
#[derive(PartialEq, Eq, Debug)]
pub struct PlayerHand(Vec<Card>);

impl View for PlayerHand {
    type V = Seq<Card>;

    /// The cards of the player, lowest first.
    closed spec fn view(&self) -> Seq<Card> {
        self.0@
    }
}

impl PlayerHand {
    #[verifier::type_invariant]
    spec fn dealt_in_order(self) -> bool {
        &&& is_sorted(self.0@)
        &&& self.0@.len() == NUM_CARDS_PER_PLAYER
        &&& self.0@.no_duplicates()
    }

    /// The cards of the player, lowest first. No card is there twice.
    pub fn cards(&self) -> (cards: &Vec<Card>)
        ensures
            cards@ == self@,
            is_sorted(cards@),
            cards@.len() == NUM_CARDS_PER_PLAYER,
            cards@.no_duplicates(),
    {
        proof {
            use_type_invariant(self);
        }
        &self.0
    }
}

/// The cards that are still to be dealt; hands are dealt from its end. No
/// card is in a deck twice.
#[derive(PartialEq, Eq, Debug)]
pub struct Deck(Vec<Card>);

impl View for Deck {
    type V = Seq<Card>;

    /// The cards of the deck, the next to be dealt last.
    closed spec fn view(&self) -> Seq<Card> {
        self.0@
    }
}

/// Every card once, in ascending order.
pub fn all_cards() -> (cards: Vec<Card>)
    ensures
        is_every_card_in_order(cards@),
{
    let values = [
        RegularCardValue::Two,
        RegularCardValue::Three,
        RegularCardValue::Four,
        RegularCardValue::Five,
        RegularCardValue::Six,
        RegularCardValue::Seven,
        RegularCardValue::Eight,
        RegularCardValue::Nine,
        RegularCardValue::Ten,
        RegularCardValue::Jack,
        RegularCardValue::Queen,
        RegularCardValue::King,
        RegularCardValue::Ace,
    ];
    let suites = [
        RegularCardSuite::Heart,
        RegularCardSuite::Diamond,
        RegularCardSuite::Spade,
        RegularCardSuite::Clubs,
    ];
    let mut cards: Vec<Card> = Vec::new();
    cards.push(Card::SpecialCard(SpecialCardType::Dragon));
    cards.push(Card::SpecialCard(SpecialCardType::Phoenix));
    cards.push(Card::SpecialCard(SpecialCardType::One));
    cards.push(Card::SpecialCard(SpecialCardType::Dog));
    let mut value: usize = 0;
    while value < 13
        invariant
            value <= 13,
            cards@.len() == 4 + 4 * value,
            forall|i: int| 0 <= i < cards@.len() ==> (#[trigger] cards@[i]).sort_key() == i,
            forall|v: int| 0 <= v < 13 ==> (#[trigger] values@[v]).rank() == v + 2,
            forall|s: int| 0 <= s < 4 ==> (#[trigger] suites@[s]).index() == s,
        decreases 13 - value,
    {
        let mut suite: usize = 0;
        while suite < 4
            invariant
                value < 13,
                suite <= 4,
                cards@.len() == 4 + 4 * value + suite,
                forall|i: int| 0 <= i < cards@.len() ==> (#[trigger] cards@[i]).sort_key() == i,
                forall|v: int| 0 <= v < 13 ==> (#[trigger] values@[v]).rank() == v + 2,
                forall|s: int| 0 <= s < 4 ==> (#[trigger] suites@[s]).index() == s,
            decreases 4 - suite,
        {
            let card = Card::RegularCard(values[value], suites[suite]);
            cards.push(card);
            suite += 1;
        }
        value += 1;
    }
    cards
}

/// Puts `cards` in a random order.
///
/// Calls `rand::seq::SliceRandom::shuffle` on the cards with `rng` as the
/// source of randomness. Trusted: that it shuffles in place, so that the same
/// cards are there afterwards, each as often as before. Which order comes
/// out depends on `rng`, and nothing is said of it.
#[verifier::external_body]
fn shuffle(cards: &mut Vec<Card>, rng: &mut rand_chacha::ChaCha8Rng)
    ensures
        final(cards)@.to_multiset() == old(cards)@.to_multiset(),
{
    cards.as_mut_slice().shuffle(rng);
}

impl Deck {
    #[verifier::type_invariant]
    spec fn no_card_twice(self) -> bool {
        self.0@.no_duplicates()
    }

    /// A full deck, shuffled with `rng`: every card once, in a random order.
    pub fn new(rng: &mut rand_chacha::ChaCha8Rng) -> (deck: Deck)
        ensures
            holds_every_card_once(deck@),
            deck@.len() == NUM_CARDS,
    {
        let mut cards = all_cards();
        let ghost in_order = cards@;
        shuffle(&mut cards, rng);
        proof {
            lemma_every_card_once(in_order, cards@);
            lemma_every_card_once_is_no_card_twice(cards@);
        }
        Deck(cards)
    }

    /// How many cards are left in the deck.
    pub fn len(&self) -> (len: usize)
        ensures
            len == self@.len(),
    {
        self.0.len()
    }

    /// The cards that are left in the deck, the next to be dealt last. No
    /// card is there twice.
    pub fn cards(&self) -> (cards: &Vec<Card>)
        ensures
            cards@ == self@,
            cards@.no_duplicates(),
    {
        proof {
            use_type_invariant(self);
        }
        &self.0
    }

    /// Deals one player's hand: takes the last fourteen cards off the deck
    /// and hands them out in ascending order.
    ///
    /// The deck must hold fourteen cards or more.
    pub fn deal(&mut self) -> (hand: PlayerHand)
        requires
            old(self)@.len() >= NUM_CARDS_PER_PLAYER,
        ensures
            final(self)@ == old(self)@.take(old(self)@.len() - NUM_CARDS_PER_PLAYER),
            hand@ == sorted_cards(old(self)@.skip(old(self)@.len() - NUM_CARDS_PER_PLAYER)),
            hand@.to_multiset() == old(self)@.skip(
                old(self)@.len() - NUM_CARDS_PER_PLAYER,
            ).to_multiset(),
            hand@.len() == NUM_CARDS_PER_PLAYER,
            is_sorted(hand@),
    {
        proof {
            use_type_invariant(&*self);
        }
        // The cards leave the deck to be split, and what is left goes back.
        let mut rest: Vec<Card> = Vec::new();
        std::mem::swap(&mut self.0, &mut rest);
        let cards = rest.split_off(rest.len() - NUM_CARDS_PER_PLAYER);
        self.0 = rest;
        proof {
            lemma_sorting_adds_no_card(cards@);
        }
        PlayerHand(sort_cards(cards))
    }
}

} // verus!
