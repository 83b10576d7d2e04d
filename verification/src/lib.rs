//! Cards, combinations and the rules for beating a combination in a
//! four-player trick-taking card game played with four suites of thirteen
//! ranked cards and four special cards: the Dragon, the Phoenix, the One and
//! the Dog.
//!
//! - [`card`] has the cards, their values and scores, and which single card
//!   may be played on which.
//! - [`order`] has the total order of cards and sorting by it.
//! - [`combination`] says, over sequences of cards, what each combination is,
//!   which combination given cards form, and when one may be played on
//!   another.
//! - [`hand`] has hands, which compute what [`combination`] says.
//! - [`runs`] cuts a hand into runs of cards of one number.
//! - [`game`] has the deck and the hands dealt from it.
//! - [`laws`] proves what holds of every hand.

pub mod card;
pub mod combination;
pub mod game;
pub mod hand;
pub mod laws;
pub mod order;
pub mod runs;
