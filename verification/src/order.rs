//! The total order of cards, and sorting by it.

use vstd::prelude::*;
use vstd::relations::{sorted_by, total_ordering};
use vstd::seq_lib::{lemma_sorted_unique, to_multiset_build, to_multiset_insert};
use crate::card::{Card, RegularCardSuite, SpecialCardType};

verus! {

/// The order that hands are kept in: `a` comes no later than `b` when its
/// sort key is no greater.
pub open spec fn card_order() -> spec_fn(Card, Card) -> bool {
    |a: Card, b: Card| a.sort_key() <= b.sort_key()
}

/// Whether `cards` ascend in the order of cards.
pub open spec fn is_sorted(cards: Seq<Card>) -> bool {
    sorted_by(cards, card_order())
}

/// The cards of `cards`, each as often as it occurs there, in ascending order.
pub open spec fn sorted_cards(cards: Seq<Card>) -> Seq<Card> {
    cards.sort_by(card_order())
}

/// No two different cards share a sort key, and every key lies in `0..56`.
pub proof fn lemma_sort_key_injective(a: Card, b: Card)
    ensures
        0 <= a.sort_key() < 56,
        a.sort_key() == b.sort_key() ==> a == b,
{
}

/// Every special card, the Phoenix among them, comes before every regular
/// card, whatever its value.
pub proof fn lemma_special_cards_come_first(special: Card, regular: Card)
    requires
        special is SpecialCard,
        regular is RegularCard,
    ensures
        special.sort_key() < regular.sort_key(),
        card_order()(special, regular),
        !card_order()(regular, special),
{
}

/// The order of cards is total: any two cards compare, and only equal cards
/// compare both ways.
pub proof fn lemma_card_order_total()
    ensures
        total_ordering(card_order()),
{
    assert forall|a: Card, b: Card| #[trigger] card_order()(a, b) && #[trigger] card_order()(b, a)
        implies a == b by {
        lemma_sort_key_injective(a, b);
    }
}

/// What `sorted_cards` returns: the same cards, in ascending order.
pub proof fn lemma_sorted_cards(cards: Seq<Card>)
    ensures
        is_sorted(sorted_cards(cards)),
        sorted_cards(cards).to_multiset() == cards.to_multiset(),
        sorted_cards(cards).len() == cards.len(),
{
    lemma_card_order_total();
    cards.lemma_sort_by_ensures(card_order());
    vstd::seq_lib::to_multiset_len(cards);
    vstd::seq_lib::to_multiset_len(sorted_cards(cards));
}

/// There is one way only to put given cards in ascending order.
pub proof fn lemma_sorted_is_unique(a: Seq<Card>, b: Seq<Card>)
    requires
        is_sorted(a),
        is_sorted(b),
        a.to_multiset() == b.to_multiset(),
    ensures
        a == b,
{
    lemma_card_order_total();
    lemma_sorted_unique(a, b, card_order());
}

/// The sort key of a card, computed.
pub(crate) fn key_of(card: &Card) -> (key: usize)
    ensures
        key == card.sort_key(),
{
    match card {
        Card::SpecialCard(SpecialCardType::Dragon) => 0,
        Card::SpecialCard(SpecialCardType::Phoenix) => 1,
        Card::SpecialCard(SpecialCardType::One) => 2,
        Card::SpecialCard(SpecialCardType::Dog) => 3,
        Card::RegularCard(value, suite) => {
            let place: usize = match suite {
                RegularCardSuite::Heart => 0,
                RegularCardSuite::Diamond => 1,
                RegularCardSuite::Spade => 2,
                RegularCardSuite::Clubs => 3,
            };
            4 + 4 * (value.numeric_value() - 2) + place
        },
    }
}

/// Sorts cards into ascending order by insertion, keeping every card as often
/// as it was given.
pub fn sort_cards(cards: Vec<Card>) -> (sorted: Vec<Card>)
    ensures
        sorted@ == sorted_cards(cards@),
        is_sorted(sorted@),
        sorted@.to_multiset() == cards@.to_multiset(),
        sorted@.len() == cards@.len(),
{
    let mut sorted: Vec<Card> = Vec::new();
    let mut taken: usize = 0;
    assert(cards@.take(0) == sorted@);
    while taken < cards.len()
        invariant
            taken <= cards.len(),
            is_sorted(sorted@),
            sorted@.to_multiset() == cards@.take(taken as int).to_multiset(),
        decreases cards.len() - taken,
    {
        let card = cards[taken];
        let key = key_of(&card);
        let mut at: usize = 0;
        while at < sorted.len() && key_of(&sorted[at]) <= key
            invariant
                at <= sorted.len(),
                key == card.sort_key(),
                forall|k: int| 0 <= k < at ==> (#[trigger] sorted@[k]).sort_key() <= key,
            decreases sorted.len() - at,
        {
            at += 1;
        }
        proof {
            let before = sorted@;
            let after = before.insert(at as int, card);
            to_multiset_insert(before, at as int, card);
            assert(cards@.take(taken + 1) == cards@.take(taken as int).push(card));
            to_multiset_build(cards@.take(taken as int), card);
            assert forall|i: int, j: int| 0 <= i < j < after.len() implies card_order()(
                after[i],
                after[j],
            ) by {
                if i == at && at < j - 1 {
                    // The card stands before the first card with a greater
                    // key, and that card before all that follow it.
                    assert(card_order()(before[at as int], before[j - 1]));
                }
            }
        }
        sorted.insert(at, card);
        taken += 1;
    }
    proof {
        assert(cards@.take(taken as int) == cards@);
        lemma_sorted_cards(cards@);
        lemma_sorted_is_unique(sorted@, sorted_cards(cards@));
    }
    sorted
}

} // verus!
