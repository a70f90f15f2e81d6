//! Playing cards: suits, ranks and the card itself.

use std::slice::Iter;
use vstd::prelude::*;
use vstd::std_specs::iter::IteratorSpec;
use vstd::std_specs::slice::axiom_spec_slice_iter;

verus! {

/// The suits in deck order.
const SUITS: [Suits; 4] = [Suits::Diamonds, Suits::Hearts, Suits::Clubs, Suits::Spades];

/// The ranks in ascending order.
const VALUES: [Values; 13] = [
    Values::Ace,
    Values::Two,
    Values::Three,
    Values::Four,
    Values::Five,
    Values::Six,
    Values::Seven,
    Values::Eight,
    Values::Nine,
    Values::Ten,
    Values::Jack,
    Values::Queen,
    Values::King,
];

/// The four suits. A suit never changes a score; it only tells two cards of
/// one rank apart.
#[derive(Debug, Clone, Copy, PartialEq, Eq, Hash, Structural)]
pub enum Suits {
    Diamonds,
    Hearts,
    Clubs,
    Spades,
}

impl Suits {
    /// All suits, in the order in which a fresh deck holds them.
    pub open spec fn all() -> Seq<Suits> {
        seq![Suits::Diamonds, Suits::Hearts, Suits::Clubs, Suits::Spades]
    }

    /// Place of the suit in [`Suits::all`].
    pub open spec fn spec_order(self) -> int {
        match self {
            Suits::Diamonds => 0,
            Suits::Hearts => 1,
            Suits::Clubs => 2,
            Suits::Spades => 3,
        }
    }

    /// Place of the suit in [`Suits::all`], used to break ties between cards
    /// of one rank.
    pub fn order(&self) -> (place: u8)
        ensures
            place == self.spec_order(),
    {
        match self {
            Suits::Diamonds => 0,
            Suits::Hearts => 1,
            Suits::Clubs => 2,
            Suits::Spades => 3,
        }
    }

    /// An iterator over the four suits in deck order.
    ///
    /// The first clause says what the iterator yields; the others say that
    /// it is a well-behaved iterator that ends, which a `for` loop needs to
    /// know.
    pub fn iterator() -> (suits: Iter<'static, Suits>)
        ensures
            suits.remaining().unref() == Suits::all(),
            suits.obeys_prophetic_iter_laws(),
            suits.initial_value_relation(&suits),
            suits.decrease() is Some,
    {
        broadcast use axiom_spec_slice_iter;

        let all: &'static [Suits; 4] = &SUITS;
        assert(all@ == Suits::all());
        all.iter()
    }
}

/// The thirteen ranks, ace low.
#[derive(Debug, Clone, Copy, PartialEq, Eq, Hash, Structural)]
pub enum Values {
    Ace,
    Two,
    Three,
    Four,
    Five,
    Six,
    Seven,
    Eight,
    Nine,
    Ten,
    Jack,
    Queen,
    King,
}

impl Values {
    /// All ranks in ascending order.
    pub open spec fn all() -> Seq<Values> {
        seq![
            Values::Ace,
            Values::Two,
            Values::Three,
            Values::Four,
            Values::Five,
            Values::Six,
            Values::Seven,
            Values::Eight,
            Values::Nine,
            Values::Ten,
            Values::Jack,
            Values::Queen,
            Values::King,
        ]
    }

    /// Position of the rank from 1 (ace) to 13 (king). Runs and the order of
    /// cards go by it.
    pub open spec fn spec_ordinal(self) -> int {
        match self {
            Values::Ace => 1,
            Values::Two => 2,
            Values::Three => 3,
            Values::Four => 4,
            Values::Five => 5,
            Values::Six => 6,
            Values::Seven => 7,
            Values::Eight => 8,
            Values::Nine => 9,
            Values::Ten => 10,
            Values::Jack => 11,
            Values::Queen => 12,
            Values::King => 13,
        }
    }

    /// What the rank counts towards a fifteen: its ordinal, with the face
    /// cards capped at 10.
    pub open spec fn spec_cribbage_value(self) -> int {
        if self.spec_ordinal() > 10 {
            10
        } else {
            self.spec_ordinal()
        }
    }

    /// Position of the rank from 1 (ace) to 13 (king).
    pub fn ordinal(&self) -> (position: u8)
        ensures
            position == self.spec_ordinal(),
            1 <= position <= 13,
    {
        match self {
            Values::Ace => 1,
            Values::Two => 2,
            Values::Three => 3,
            Values::Four => 4,
            Values::Five => 5,
            Values::Six => 6,
            Values::Seven => 7,
            Values::Eight => 8,
            Values::Nine => 9,
            Values::Ten => 10,
            Values::Jack => 11,
            Values::Queen => 12,
            Values::King => 13,
        }
    }

    /// What the rank counts towards a fifteen.
    pub fn cribbage_value(&self) -> (value: u8)
        ensures
            value == self.spec_cribbage_value(),
            1 <= value <= 10,
    {
        let position = self.ordinal();
        if position > 10 {
            10
        } else {
            position
        }
    }

    /// An iterator over the thirteen ranks in ascending order.
    ///
    /// The first clause says what the iterator yields; the others say that
    /// it is a well-behaved iterator that ends, which a `for` loop needs to
    /// know.
    pub fn iterator() -> (ranks: Iter<'static, Values>)
        ensures
            ranks.remaining().unref() == Values::all(),
            ranks.obeys_prophetic_iter_laws(),
            ranks.initial_value_relation(&ranks),
            ranks.decrease() is Some,
    {
        broadcast use axiom_spec_slice_iter;

        let all: &'static [Values; 13] = &VALUES;
        assert(all@ == Values::all());
        all.iter()
    }
}

/// A playing card: a suit and a rank. Cards are plain values and never change.
#[derive(Debug, Clone, Copy, PartialEq, Eq, Hash, Structural)]
pub struct Card {
    pub suit: Suits,
    pub value: Values,
}

impl Card {
    /// The card of the given suit and rank.
    pub fn new(suit: Suits, value: Values) -> (card: Card)
        ensures
            card.suit == suit,
            card.value == value,
    {
        Card { suit, value }
    }

    /// Ordinal of the card's rank, 1 to 13.
    pub fn to_rank_value(&self) -> (ordinal: usize)
        ensures
            ordinal == self.value.spec_ordinal(),
            1 <= ordinal <= 13,
    {
        self.value.ordinal() as usize
    }

    /// What the card counts towards a fifteen, 1 to 10.
    pub fn to_cribbage_value(&self) -> (value: usize)
        ensures
            value == self.value.spec_cribbage_value(),
            1 <= value <= 10,
    {
        self.value.cribbage_value() as usize
    }
}

} // verus!
