//! The order of cards and the sorted copy of a hand.

use crate::cards::Card;
use vstd::prelude::*;
use vstd::relations::{sorted_by, total_ordering};
use vstd::seq_lib::lemma_sorted_unique;

verus! {

/// Whether `first` may stand before `second` in a sorted hand: cards go by
/// rank ordinal, and cards of one rank by suit.
pub open spec fn card_leq(first: Card, second: Card) -> bool {
    ||| first.value.spec_ordinal() < second.value.spec_ordinal()
    ||| (first.value.spec_ordinal() == second.value.spec_ordinal()
        && first.suit.spec_order() <= second.suit.spec_order())
}

/// [`card_leq`] as a relation, for the sorting predicates of `vstd`.
pub open spec fn card_order() -> spec_fn(Card, Card) -> bool {
    |first: Card, second: Card| card_leq(first, second)
}

/// The hand with its cards in ascending order.
pub open spec fn sorted_hand(hand: Seq<Card>) -> Seq<Card> {
    hand.sort_by(card_order())
}

/// The order of cards is total: any two cards compare, and two cards that
/// compare both ways are the same card.
pub proof fn lemma_card_order_is_total()
    ensures
        total_ordering(card_order()),
{
    let leq = card_order();
    assert forall|a: Card, b: Card| #[trigger] leq(a, b) && #[trigger] leq(b, a) implies a == b by {
        assert(a.value == b.value);
        assert(a.suit == b.suit);
    }
}

/// A hand has one sorted arrangement: whatever is sorted and holds the same
/// cards as `hand` is `sorted_hand(hand)`.
pub proof fn lemma_sorted_hand_is_unique(hand: Seq<Card>, arranged: Seq<Card>)
    requires
        arranged.to_multiset() == hand.to_multiset(),
        sorted_by(arranged, card_order()),
    ensures
        arranged == sorted_hand(hand),
{
    lemma_card_order_is_total();
    hand.lemma_sort_by_ensures(card_order());
    lemma_sorted_unique(arranged, sorted_hand(hand), card_order());
}

impl Card {
    /// Whether this card may stand before `other` in a sorted hand.
    pub fn sorts_before(&self, other: &Card) -> (before: bool)
        ensures
            before == card_leq(*self, *other),
    {
        let mine = self.value.ordinal();
        let theirs = other.value.ordinal();
        mine < theirs || (mine == theirs && self.suit.order() <= other.suit.order())
    }
}

/// Merges two sorted rows of cards into one sorted row that holds the cards
/// of both. Where a card of each row may come next, that of `left` does.
fn merge(left: &Vec<Card>, right: &Vec<Card>) -> (merged: Vec<Card>)
    requires
        sorted_by(left@, card_order()),
        sorted_by(right@, card_order()),
    ensures
        sorted_by(merged@, card_order()),
        merged@.to_multiset() == left@.to_multiset().add(right@.to_multiset()),
{
    let mut merged: Vec<Card> = Vec::new();
    let mut i: usize = 0;
    let mut j: usize = 0;
    proof {
        broadcast use vstd::seq_lib::group_to_multiset_ensures;
        broadcast use vstd::multiset::group_multiset_axioms;

        assert(left@.take(0) =~= Seq::<Card>::empty());
        assert(right@.take(0) =~= Seq::<Card>::empty());
        assert(merged@.to_multiset() =~= left@.take(0).to_multiset().add(
            right@.take(0).to_multiset(),
        ));
    }
    while i < left.len() || j < right.len()
        invariant
            i <= left.len(),
            j <= right.len(),
            sorted_by(left@, card_order()),
            sorted_by(right@, card_order()),
            sorted_by(merged@, card_order()),
            merged@.to_multiset() == left@.take(i as int).to_multiset().add(
                right@.take(j as int).to_multiset(),
            ),
            forall|k: int, m: int|
                0 <= k < merged.len() && i <= m < left.len() ==> card_leq(
                    #[trigger] merged@[k],
                    #[trigger] left@[m],
                ),
            forall|k: int, m: int|
                0 <= k < merged.len() && j <= m < right.len() ==> card_leq(
                    #[trigger] merged@[k],
                    #[trigger] right@[m],
                ),
        decreases (left.len() - i) + (right.len() - j),
    {
        let ghost before = merged@;
        if j == right.len() || (i < left.len() && left[i].sorts_before(&right[j])) {
            let card = left[i];
            proof {
                assert forall|m: int| i <= m < left.len() implies card_leq(
                    card,
                    #[trigger] left@[m],
                ) by {
                    assert(m == i || card_order()(left@[i as int], left@[m]));
                }
                assert forall|m: int| j <= m < right.len() implies card_leq(
                    card,
                    #[trigger] right@[m],
                ) by {
                    assert(m == j || card_order()(right@[j as int], right@[m]));
                }
                assert(left@.take(i + 1) =~= left@.take(i as int).push(card));
                vstd::seq_lib::to_multiset_build(left@.take(i as int), card);
                vstd::seq_lib::to_multiset_build(before, card);
                assert(before.push(card).to_multiset() =~= left@.take(i + 1).to_multiset().add(
                    right@.take(j as int).to_multiset(),
                ));
            }
            merged.push(card);
            i += 1;
        } else {
            let card = right[j];
            proof {
                assert forall|m: int| i <= m < left.len() implies card_leq(
                    card,
                    #[trigger] left@[m],
                ) by {
                    assert(m == i || card_order()(left@[i as int], left@[m]));
                }
                assert forall|m: int| j <= m < right.len() implies card_leq(
                    card,
                    #[trigger] right@[m],
                ) by {
                    assert(m == j || card_order()(right@[j as int], right@[m]));
                }
                assert(right@.take(j + 1) =~= right@.take(j as int).push(card));
                vstd::seq_lib::to_multiset_build(right@.take(j as int), card);
                vstd::seq_lib::to_multiset_build(before, card);
                assert(before.push(card).to_multiset() =~= left@.take(i as int).to_multiset().add(
                    right@.take(j + 1).to_multiset(),
                ));
            }
            merged.push(card);
            j += 1;
        }
        proof {
            let after = merged@;
            assert forall|a: int, b: int| 0 <= a < b < after.len() implies #[trigger] card_order()(
                after[a],
                after[b],
            ) by {
                if b < before.len() {
                    assert(card_order()(before[a], before[b]));
                }
            }
        }
    }
    proof {
        assert(left@.take(i as int) =~= left@);
        assert(right@.take(j as int) =~= right@);
    }
    merged
}

/// A sorted copy of the cards of `hand` from position `from` up to `to`:
/// each half is sorted on its own, and the two are merged.
fn sort_range(hand: &Vec<Card>, from: usize, to: usize) -> (sorted: Vec<Card>)
    requires
        from <= to <= hand.len(),
    ensures
        sorted_by(sorted@, card_order()),
        sorted@.to_multiset() == hand@.subrange(from as int, to as int).to_multiset(),
    decreases to - from,
{
    if to - from <= 1 {
        let mut sorted: Vec<Card> = Vec::new();
        if from < to {
            sorted.push(hand[from]);
        }
        proof {
            assert(sorted@ =~= hand@.subrange(from as int, to as int));
        }
        sorted
    } else {
        let middle = from + (to - from) / 2;
        let lower = sort_range(hand, from, middle);
        let upper = sort_range(hand, middle, to);
        proof {
            let first = hand@.subrange(from as int, middle as int);
            let second = hand@.subrange(middle as int, to as int);
            assert(hand@.subrange(from as int, to as int) =~= first + second);
            vstd::seq_lib::lemma_multiset_commutative(first, second);
        }
        merge(&lower, &upper)
    }
}

/// A sorted copy of the hand: the same cards, in ascending order of rank and,
/// within a rank, of suit. The hand itself is left as it is.
pub fn sort_hand(hand: &Vec<Card>) -> (sorted: Vec<Card>)
    ensures
        sorted@ == sorted_hand(hand@),
        sorted@.to_multiset() == hand@.to_multiset(),
        sorted_by(sorted@, card_order()),
{
    let sorted = sort_range(hand, 0, hand.len());
    proof {
        assert(hand@.subrange(0, hand@.len() as int) =~= hand@);
        lemma_sorted_hand_is_unique(hand@, sorted@);
    }
    sorted
}

} // verus!
