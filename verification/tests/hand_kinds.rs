use tichu::card::{Card, RegularCardSuite, RegularCardValue, SpecialCardType};
use tichu::hand::{Hand, HandType};

use RegularCardSuite::{Clubs, Diamond, Heart, Spade};
use RegularCardValue::{
    Ace, Eight, Five, Four, Jack, King, Nine, Queen, Seven, Six, Ten, Three, Two,
};

fn card(value: RegularCardValue, suite: RegularCardSuite) -> Card {
    Card::RegularCard(value, suite)
}

const DRAGON: Card = Card::SpecialCard(SpecialCardType::Dragon);
const PHOENIX: Card = Card::SpecialCard(SpecialCardType::Phoenix);
const ONE: Card = Card::SpecialCard(SpecialCardType::One);
const DOG: Card = Card::SpecialCard(SpecialCardType::Dog);

#[test]
fn a_hand_keeps_its_cards_in_order() {
    let hand = Hand::new(vec![
        card(Six, Heart),
        card(Two, Clubs),
        PHOENIX,
        card(Two, Heart),
        DOG,
        card(Ace, Spade),
        ONE,
        DRAGON,
        card(Two, Diamond),
    ]);
    assert_eq!(
        hand.cards(),
        &vec![
            DRAGON,
            PHOENIX,
            ONE,
            DOG,
            card(Two, Heart),
            card(Two, Diamond),
            card(Two, Clubs),
            card(Six, Heart),
            card(Ace, Spade),
        ]
    );
}

#[test]
fn a_hand_is_sorted_as_the_cards_compare() {
    let given = vec![
        card(King, Spade),
        card(Three, Clubs),
        PHOENIX,
        card(King, Heart),
        card(Three, Clubs),
        ONE,
        card(Ten, Diamond),
    ];
    let mut expected = given.clone();
    expected.sort_unstable();
    let hand = Hand::new(given);
    assert_eq!(hand.cards(), &expected);
}

#[test]
fn sorting_a_hand_again_changes_nothing() {
    let hand = Hand::new(vec![
        card(Four, Spade),
        PHOENIX,
        card(Two, Heart),
        card(Four, Diamond),
        card(Two, Clubs),
    ]);
    let again = Hand::new(hand.cards().clone());
    assert_eq!(again, hand);
    assert_eq!(again.cards(), hand.cards());
}

#[test]
fn the_same_cards_in_another_order_make_the_same_hand() {
    let hand = Hand::new(vec![card(Two, Heart), card(Three, Heart), card(Two, Clubs)]);
    let other = Hand::new(vec![card(Two, Clubs), card(Two, Heart), card(Three, Heart)]);
    assert_eq!(hand, other);
    assert_eq!(hand.hand_type(), other.hand_type());
}

#[test]
fn sorting_keeps_a_card_that_is_there_twice() {
    let hand = Hand::new(vec![card(Two, Clubs), card(Two, Heart), card(Two, Clubs)]);
    assert_eq!(
        hand.cards(),
        &vec![card(Two, Heart), card(Two, Clubs), card(Two, Clubs)]
    );
    assert_eq!(hand.hand_type(), Some(HandType::Triple));
}

#[test]
fn the_empty_hand_is_no_combination() {
    let hand = Hand::new(vec![]);
    assert_eq!(hand.hand_type(), None);
    assert_eq!(hand.relevant_card_value(), None);
    assert_eq!(hand.num_phoenices(), 0);
    assert!(!hand.is_bomb());
    assert!(!hand.is_valid_single_card());
    assert!(!hand.is_valid_pair());
    assert!(!hand.is_valid_triple());
    assert!(!hand.is_valid_straight());
    assert!(!hand.is_valid_straight_of_pairs());
    assert!(!hand.is_valid_full_house());
    assert!(!hand.is_valid_quadruple_bomb());
    assert!(!hand.is_valid_straight_bomb());
}

#[test]
fn a_single_regular_card() {
    let hand = Hand::single_card(card(King, Heart));
    assert_eq!(hand.cards(), &vec![card(King, Heart)]);
    assert!(hand.is_valid_single_card());
    assert_eq!(hand.hand_type(), Some(HandType::SingleCard));
    assert_eq!(hand.relevant_card_value(), Some(King));
    assert!(!hand.is_bomb());
}

#[test]
fn a_single_special_card() {
    for special in [DRAGON, PHOENIX, ONE, DOG] {
        let hand = Hand::single_card(special);
        assert_eq!(hand.hand_type(), Some(HandType::SingleCard));
        assert_eq!(hand.relevant_card_value(), None);
        assert!(!hand.is_valid_straight_of_pairs() || special == ONE);
    }
    assert_eq!(Hand::new(vec![DRAGON]), Hand::single_card(DRAGON));
}

#[test]
fn dragon_or_dog_among_several_cards_is_no_combination() {
    assert_eq!(Hand::new(vec![DRAGON, card(King, Heart)]).hand_type(), None);
    assert_eq!(Hand::new(vec![card(King, Heart), DOG]).hand_type(), None);
    assert_eq!(Hand::new(vec![DRAGON, DOG]).hand_type(), None);
    assert_eq!(
        Hand::new(vec![card(King, Heart), card(King, Spade), DOG]).hand_type(),
        None
    );
    let run_with_dog = Hand::new(vec![
        DOG,
        card(Two, Heart),
        card(Three, Heart),
        card(Four, Heart),
        card(Five, Heart),
        card(Six, Heart),
    ]);
    assert!(run_with_dog.is_valid_straight());
    assert_eq!(run_with_dog.hand_type(), None);
    assert_eq!(run_with_dog.relevant_card_value(), None);
    let fours_with_dragon = Hand::new(vec![
        card(Four, Heart),
        card(Four, Diamond),
        card(Four, Spade),
        card(Four, Clubs),
        DRAGON,
    ]);
    assert_eq!(fours_with_dragon.hand_type(), None);
    assert!(!fours_with_dragon.is_bomb());
}

#[test]
fn pairs() {
    let kings = Hand::new(vec![card(King, Heart), card(King, Clubs)]);
    assert!(kings.is_valid_pair());
    assert_eq!(kings.hand_type(), Some(HandType::Pair));
    assert_eq!(kings.relevant_card_value(), Some(King));

    let with_phoenix = Hand::new(vec![card(Seven, Spade), PHOENIX]);
    assert!(with_phoenix.is_valid_pair());
    assert_eq!(with_phoenix.hand_type(), Some(HandType::Pair));
    assert_eq!(with_phoenix.relevant_card_value(), Some(Seven));

    let different = Hand::new(vec![card(King, Heart), card(Queen, Heart)]);
    assert!(!different.is_valid_pair());
    assert_eq!(different.hand_type(), None);

    assert!(!Hand::new(vec![PHOENIX, PHOENIX]).is_valid_pair());
    assert!(!Hand::new(vec![ONE, card(Two, Heart)]).is_valid_pair());
    assert!(!Hand::new(vec![card(King, Heart)]).is_valid_pair());
}

#[test]
fn phoenix_and_one_are_no_pair_but_a_straight_of_pairs() {
    let hand = Hand::new(vec![PHOENIX, ONE]);
    assert!(!hand.is_valid_pair());
    assert!(hand.is_valid_straight_of_pairs());
    assert_eq!(hand.hand_type(), Some(HandType::StraightOfPairs));
    assert_eq!(hand.relevant_card_value(), None);
}

#[test]
fn triples() {
    let nines = Hand::new(vec![card(Nine, Heart), card(Nine, Clubs), card(Nine, Spade)]);
    assert!(nines.is_valid_triple());
    assert_eq!(nines.hand_type(), Some(HandType::Triple));
    assert_eq!(nines.relevant_card_value(), Some(Nine));

    let with_phoenix = Hand::new(vec![card(Jack, Heart), PHOENIX, card(Jack, Clubs)]);
    assert!(with_phoenix.is_valid_triple());
    assert_eq!(with_phoenix.hand_type(), Some(HandType::Triple));
    assert_eq!(with_phoenix.relevant_card_value(), Some(Jack));

    let different = Hand::new(vec![card(Nine, Heart), card(Nine, Clubs), card(Ten, Spade)]);
    assert!(!different.is_valid_triple());
    assert_eq!(different.hand_type(), None);

    let phoenix_and_two = Hand::new(vec![PHOENIX, card(Nine, Clubs), card(Ten, Spade)]);
    assert!(!phoenix_and_two.is_valid_triple());
    assert!(!Hand::new(vec![PHOENIX, PHOENIX, card(Ten, Spade)]).is_valid_triple());
}

#[test]
fn a_run_of_mixed_suites_is_a_straight() {
    let hand = Hand::new(vec![
        card(Two, Heart),
        card(Three, Heart),
        card(Four, Heart),
        card(Five, Heart),
        card(Six, Clubs),
    ]);
    assert!(hand.is_valid_straight());
    assert!(!hand.is_valid_straight_bomb());
    assert_eq!(hand.hand_type(), Some(HandType::Straight));
    assert_eq!(hand.relevant_card_value(), Some(Six));
    assert!(!hand.is_bomb());
}

#[test]
fn a_run_of_one_suite_is_a_straight_and_is_told_as_a_bomb() {
    let hand = Hand::new(vec![
        card(Two, Heart),
        card(Three, Heart),
        card(Four, Heart),
        card(Five, Heart),
        card(Six, Heart),
    ]);
    assert!(hand.is_valid_straight());
    assert!(hand.is_valid_straight_bomb());
    assert_eq!(hand.hand_type(), Some(HandType::StraightBomb));
    assert_ne!(hand.hand_type(), Some(HandType::Straight));
    assert_eq!(hand.relevant_card_value(), Some(Six));
    assert!(hand.is_bomb());
}

#[test]
fn a_run_with_a_hole_is_no_combination() {
    let hand = Hand::new(vec![
        card(Two, Heart),
        card(Three, Heart),
        card(Four, Heart),
        card(Five, Heart),
        card(Seven, Heart),
    ]);
    assert!(!hand.is_valid_straight());
    assert!(!hand.is_valid_straight_bomb());
    assert_eq!(hand.hand_type(), None);
    assert_eq!(hand.relevant_card_value(), None);
}

#[test]
fn the_phoenix_fills_a_hole_in_a_run() {
    let hand = Hand::new(vec![
        card(Two, Heart),
        card(Three, Heart),
        card(Four, Heart),
        card(Six, Heart),
        PHOENIX,
    ]);
    assert_eq!(hand.num_phoenices(), 1);
    assert!(hand.is_valid_straight());
    assert!(!hand.is_valid_straight_bomb());
    assert_eq!(hand.hand_type(), Some(HandType::Straight));
    assert_eq!(hand.relevant_card_value(), Some(Six));
}

#[test]
fn one_phoenix_fills_one_hole_only() {
    let two_holes = Hand::new(vec![
        card(Two, Heart),
        card(Three, Heart),
        card(Five, Heart),
        card(Seven, Heart),
        PHOENIX,
    ]);
    assert!(!two_holes.is_valid_straight());
    assert_eq!(two_holes.hand_type(), None);
    let wide_hole = Hand::new(vec![
        card(Two, Heart),
        card(Three, Heart),
        card(Four, Heart),
        card(Seven, Heart),
        PHOENIX,
    ]);
    assert!(!wide_hole.is_valid_straight());
    let two_phoenixes = Hand::new(vec![
        card(Two, Heart),
        card(Three, Heart),
        card(Four, Heart),
        card(Seven, Heart),
        PHOENIX,
        PHOENIX,
    ]);
    assert_eq!(two_phoenixes.num_phoenices(), 2);
    assert!(two_phoenixes.is_valid_straight());
    assert_eq!(two_phoenixes.hand_type(), Some(HandType::Straight));
}

#[test]
fn a_run_may_begin_with_the_one() {
    let hand = Hand::new(vec![
        card(Two, Heart),
        card(Three, Heart),
        card(Four, Heart),
        card(Five, Heart),
        ONE,
    ]);
    assert!(hand.is_valid_straight());
    assert!(!hand.is_valid_straight_bomb());
    assert_eq!(hand.hand_type(), Some(HandType::Straight));
    assert_eq!(hand.relevant_card_value(), Some(Five));
}

#[test]
fn a_run_needs_five_cards() {
    let four = Hand::new(vec![
        card(Two, Heart),
        card(Three, Heart),
        card(Four, Heart),
        card(Five, Heart),
    ]);
    assert!(!four.is_valid_straight());
    assert_eq!(four.hand_type(), None);
    let long = Hand::new(vec![
        card(Two, Heart),
        card(Three, Clubs),
        card(Four, Heart),
        card(Five, Heart),
        card(Six, Spade),
        card(Seven, Heart),
        card(Eight, Diamond),
        card(Nine, Heart),
        card(Ten, Heart),
        card(Jack, Heart),
        card(Queen, Heart),
        card(King, Heart),
        card(Ace, Heart),
    ]);
    assert!(long.is_valid_straight());
    assert_eq!(long.hand_type(), Some(HandType::Straight));
    assert_eq!(long.relevant_card_value(), Some(Ace));
}

#[test]
fn a_run_has_no_number_twice() {
    let hand = Hand::new(vec![
        card(Two, Heart),
        card(Three, Heart),
        card(Three, Clubs),
        card(Four, Heart),
        card(Five, Heart),
        card(Six, Heart),
    ]);
    assert!(!hand.is_valid_straight());
    assert_eq!(hand.hand_type(), None);
}

#[test]
fn a_straight_bomb_has_no_phoenix_and_one_suite() {
    let with_phoenix = Hand::new(vec![
        PHOENIX,
        card(Three, Spade),
        card(Four, Spade),
        card(Five, Spade),
        card(Six, Spade),
    ]);
    assert!(with_phoenix.is_valid_straight());
    assert!(!with_phoenix.is_valid_straight_bomb());
    assert_eq!(with_phoenix.hand_type(), Some(HandType::Straight));
    let spades = Hand::new(vec![
        card(Ten, Spade),
        card(Jack, Spade),
        card(Queen, Spade),
        card(King, Spade),
        card(Ace, Spade),
        card(Nine, Spade),
    ]);
    assert!(spades.is_valid_straight_bomb());
    assert_eq!(spades.hand_type(), Some(HandType::StraightBomb));
    assert_eq!(spades.relevant_card_value(), Some(Ace));
}

#[test]
fn pairs_in_a_row_are_a_straight_of_pairs() {
    let hand = Hand::new(vec![
        card(Two, Heart),
        card(Two, Clubs),
        card(Three, Clubs),
        card(Three, Diamond),
        card(Four, Spade),
        card(Four, Heart),
    ]);
    assert!(hand.is_valid_straight_of_pairs());
    assert_eq!(hand.hand_type(), Some(HandType::StraightOfPairs));
    assert_eq!(hand.relevant_card_value(), Some(Four));
    assert!(!hand.is_bomb());
}

#[test]
fn the_phoenix_makes_up_for_one_card_of_a_pair() {
    let hand = Hand::new(vec![
        card(Two, Heart),
        card(Two, Clubs),
        card(Three, Clubs),
        PHOENIX,
        card(Four, Spade),
        card(Four, Heart),
    ]);
    assert!(hand.is_valid_straight_of_pairs());
    assert_eq!(hand.hand_type(), Some(HandType::StraightOfPairs));
    assert_eq!(hand.relevant_card_value(), Some(Four));

    let two_missing = Hand::new(vec![
        card(Two, Heart),
        card(Three, Clubs),
        PHOENIX,
        card(Four, Spade),
        card(Four, Heart),
    ]);
    assert!(!two_missing.is_valid_straight_of_pairs());

    let whole_pair_missing = Hand::new(vec![
        card(Two, Heart),
        card(Two, Clubs),
        PHOENIX,
        card(Four, Spade),
        card(Four, Heart),
    ]);
    assert!(!whole_pair_missing.is_valid_straight_of_pairs());
}

#[test]
fn pairs_with_a_hole_are_no_straight_of_pairs() {
    let hand = Hand::new(vec![
        card(Two, Heart),
        card(Two, Clubs),
        card(Four, Spade),
        card(Four, Heart),
    ]);
    assert!(!hand.is_valid_straight_of_pairs());
    assert_eq!(hand.hand_type(), None);
}

#[test]
fn three_cards_of_a_number_are_no_straight_of_pairs() {
    let hand = Hand::new(vec![
        PHOENIX,
        PHOENIX,
        card(Two, Heart),
        card(Two, Clubs),
        card(Two, Spade),
        card(Three, Clubs),
        card(Three, Diamond),
    ]);
    assert!(!hand.is_valid_straight_of_pairs());
    assert_eq!(hand.hand_type(), None);
    let plain = Hand::new(vec![
        card(Two, Heart),
        card(Two, Clubs),
        card(Two, Spade),
        card(Three, Clubs),
        card(Three, Diamond),
        card(Three, Heart),
    ]);
    assert!(!plain.is_valid_straight_of_pairs());
}

#[test]
fn a_hand_without_a_number_is_no_straight_of_pairs() {
    assert!(!Hand::new(vec![PHOENIX]).is_valid_straight_of_pairs());
    assert!(!Hand::new(vec![PHOENIX, PHOENIX]).is_valid_straight_of_pairs());
    assert!(!Hand::new(vec![DRAGON]).is_valid_straight_of_pairs());
    assert!(!Hand::new(vec![DOG, DRAGON]).is_valid_straight_of_pairs());
    assert_eq!(Hand::new(vec![PHOENIX, PHOENIX]).hand_type(), None);
}

#[test]
fn the_dog_after_the_one_does_not_hide_it() {
    let hand = Hand::new(vec![ONE, DOG]);
    assert!(!hand.is_valid_straight_of_pairs());
    let pair_of_ones = Hand::new(vec![ONE, ONE, DOG]);
    assert!(pair_of_ones.is_valid_straight_of_pairs());
    assert_eq!(pair_of_ones.hand_type(), None);
}

#[test]
fn a_pair_of_regular_cards_is_told_as_a_pair() {
    let hand = Hand::new(vec![card(Eight, Heart), card(Eight, Clubs)]);
    assert!(hand.is_valid_straight_of_pairs());
    assert_eq!(hand.hand_type(), Some(HandType::Pair));
}

#[test]
fn full_houses() {
    let twos_over_fours = Hand::new(vec![
        card(Two, Heart),
        card(Two, Clubs),
        card(Two, Clubs),
        card(Four, Diamond),
        card(Four, Spade),
    ]);
    assert!(twos_over_fours.is_valid_full_house());
    assert_eq!(twos_over_fours.hand_type(), Some(HandType::FullHouse));
    assert_eq!(twos_over_fours.relevant_card_value(), Some(Two));

    let fours_over_twos = Hand::new(vec![
        card(Two, Heart),
        card(Two, Clubs),
        card(Four, Heart),
        card(Four, Diamond),
        card(Four, Spade),
    ]);
    assert!(fours_over_twos.is_valid_full_house());
    assert_eq!(fours_over_twos.hand_type(), Some(HandType::FullHouse));
    assert_eq!(fours_over_twos.relevant_card_value(), Some(Four));

    let no_pair = Hand::new(vec![
        card(Two, Heart),
        card(Two, Clubs),
        card(Two, Spade),
        card(Four, Diamond),
        card(Five, Spade),
    ]);
    assert!(!no_pair.is_valid_full_house());
    assert_eq!(no_pair.hand_type(), None);
}

#[test]
fn the_phoenix_joins_two_pairs_to_a_full_house() {
    let hand = Hand::new(vec![
        card(Two, Heart),
        card(Two, Clubs),
        card(Four, Diamond),
        card(Four, Spade),
        PHOENIX,
    ]);
    assert_eq!(
        hand.cards(),
        &vec![
            PHOENIX,
            card(Two, Heart),
            card(Two, Clubs),
            card(Four, Diamond),
            card(Four, Spade),
        ]
    );
    assert!(hand.is_valid_full_house());
    assert_eq!(hand.hand_type(), Some(HandType::FullHouse));
    assert_eq!(hand.relevant_card_value(), Some(Four));
}

#[test]
fn the_phoenix_joins_a_triple_and_a_card_to_a_full_house() {
    let low_triple = Hand::new(vec![
        PHOENIX,
        card(Two, Heart),
        card(Two, Clubs),
        card(Two, Spade),
        card(Four, Spade),
    ]);
    assert!(low_triple.is_valid_full_house());
    assert_eq!(low_triple.hand_type(), Some(HandType::FullHouse));
    assert_eq!(low_triple.relevant_card_value(), Some(Two));

    let high_triple = Hand::new(vec![
        PHOENIX,
        card(Two, Heart),
        card(Four, Clubs),
        card(Four, Heart),
        card(Four, Spade),
    ]);
    assert!(high_triple.is_valid_full_house());
    assert_eq!(high_triple.hand_type(), Some(HandType::FullHouse));
    assert_eq!(high_triple.relevant_card_value(), Some(Four));
}

#[test]
fn five_of_a_value_are_no_full_house() {
    let with_phoenix = Hand::new(vec![
        PHOENIX,
        card(Two, Heart),
        card(Two, Diamond),
        card(Two, Spade),
        card(Two, Clubs),
    ]);
    assert!(!with_phoenix.is_valid_full_house());
    assert_eq!(with_phoenix.hand_type(), None);
    let without = Hand::new(vec![
        card(Two, Heart),
        card(Two, Heart),
        card(Two, Diamond),
        card(Two, Spade),
        card(Two, Clubs),
    ]);
    assert!(!without.is_valid_full_house());
    assert_eq!(without.hand_type(), None);
}

#[test]
fn four_of_a_value_are_a_bomb() {
    let hand = Hand::new(vec![
        card(Two, Heart),
        card(Two, Clubs),
        card(Two, Diamond),
        card(Two, Spade),
    ]);
    assert!(hand.is_valid_quadruple_bomb());
    assert_eq!(hand.hand_type(), Some(HandType::QuadrupleBomb));
    assert_eq!(hand.relevant_card_value(), Some(Two));
    assert!(hand.is_bomb());

    let with_phoenix = Hand::new(vec![
        card(Two, Heart),
        card(Two, Clubs),
        card(Two, Diamond),
        PHOENIX,
    ]);
    assert!(!with_phoenix.is_valid_quadruple_bomb());
    assert_eq!(with_phoenix.hand_type(), None);
    assert!(!with_phoenix.is_bomb());

    let different = Hand::new(vec![
        card(Two, Heart),
        card(Two, Clubs),
        card(Two, Diamond),
        card(Three, Spade),
    ]);
    assert!(!different.is_valid_quadruple_bomb());
}

#[test]
fn phoenixes_are_counted() {
    assert_eq!(Hand::new(vec![card(Two, Heart)]).num_phoenices(), 0);
    assert_eq!(Hand::new(vec![PHOENIX]).num_phoenices(), 1);
    assert_eq!(
        Hand::new(vec![card(Two, Heart), PHOENIX, ONE, PHOENIX, PHOENIX]).num_phoenices(),
        3
    );
}

#[test]
fn five_phoenixes_are_a_straight_without_a_value() {
    let hand = Hand::new(vec![PHOENIX, PHOENIX, PHOENIX, PHOENIX, PHOENIX]);
    assert!(hand.is_valid_straight());
    assert_eq!(hand.hand_type(), Some(HandType::Straight));
    assert_eq!(hand.relevant_card_value(), None);
}
