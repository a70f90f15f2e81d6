//! The deck of fifty-two cards and the hand cut from it.

use crate::cards::{Card, Suits, Values};
use vstd::prelude::*;

verus! {

/// The fresh deck: suit by suit in deck order, and within each suit the
/// ranks from ace to king.
pub open spec fn full_deck() -> Seq<Card> {
    Seq::new(52, |i: int| Card { suit: Suits::all()[i / 13], value: Values::all()[i % 13] })
}

/// Makes a fresh deck of fifty-two cards, each card once.
pub fn make_deck() -> (deck: Vec<Card>)
    ensures
        deck@ == full_deck(),
{
    let mut deck: Vec<Card> = Vec::new();
    for suit in suits: Suits::iterator()
        invariant
            suits.seq().unref() == Suits::all(),
            deck@ == full_deck().take(13 * suits.index()),
    {
        proof {
            assert(suits.seq().unref().len() == 4);
            assert(*suit == suits.seq().unref()[suits.index()]);
        }
        for value in values: Values::iterator()
            invariant
                0 <= suits.index() < 4,
                suits.seq().unref() == Suits::all(),
                *suit == Suits::all()[suits.index()],
                values.seq().unref() == Values::all(),
                deck@ == full_deck().take(13 * suits.index() + values.index()),
        {
            proof {
                let place = 13 * suits.index() + values.index();
                assert(values.seq().unref().len() == 13);
                assert(*value == values.seq().unref()[values.index()]);
                assert(place / 13 == suits.index() && place % 13 == values.index());
                assert(full_deck().take(place + 1) =~= full_deck().take(place).push(
                    full_deck()[place],
                ));
            }
            deck.push(Card::new(suit.clone(), value.clone()));
        }
    }
    proof {
        assert(full_deck().take(52) =~= full_deck());
    }
    deck
}

/// Cuts a hand off the end of the deck: the deck keeps its first `size`
/// cards, and the hand is made of the others, in their order.
pub fn make_hand(deck: &mut Vec<Card>, size: usize) -> (hand: Vec<Card>)
    requires
        size <= old(deck)@.len(),
    ensures
        final(deck)@ == old(deck)@.take(size as int),
        hand@ == old(deck)@.skip(size as int),
{
    deck.split_off(size)
}

} // verus!
