//! The pairs rule: two points for every two cards of one rank.

use crate::cards::Card;
use crate::laws::{lemma_small_hand_fits, MAX_HAND};
use vstd::arithmetic::overflow::CheckedUsize;
use vstd::prelude::*;

verus! {

/// How many of the first `upto` cards of `hand` have the rank with the given
/// ordinal.
pub open spec fn rank_count(hand: Seq<Card>, upto: int, ordinal: int) -> nat
    decreases upto,
{
    if upto <= 0 {
        0
    } else {
        rank_count(hand, upto - 1, ordinal) + if hand[upto - 1].value.spec_ordinal() == ordinal {
            1nat
        } else {
            0nat
        }
    }
}

/// The number of pairs of positions `i < j < upto` whose cards have the same
/// rank, whatever their suits.
pub open spec fn equal_rank_pairs(hand: Seq<Card>, upto: int) -> nat
    decreases upto,
{
    if upto <= 0 {
        0
    } else {
        equal_rank_pairs(hand, upto - 1) + rank_count(
            hand,
            upto - 1,
            hand[upto - 1].value.spec_ordinal(),
        )
    }
}

/// The points that the pairs rule gives a hand: two for each pair of cards
/// of one rank.
pub open spec fn pairs_points(hand: Seq<Card>) -> nat {
    2 * equal_rank_pairs(hand, hand.len() as int)
}

/// The number of ways to pick two out of `size` things.
pub open spec fn choose_two(size: nat) -> nat {
    (size * (size - 1) / 2) as nat
}

/// The pairs that lie within the groups of equal rank, for the ranks with
/// ordinals 1 to `highest`: each group of `k` cards holds `choose_two(k)`.
pub open spec fn pairs_in_rank_groups(hand: Seq<Card>, highest: int) -> nat
    decreases highest,
{
    if highest <= 0 {
        0
    } else {
        pairs_in_rank_groups(hand, highest - 1) + choose_two(
            rank_count(hand, hand.len() as int, highest),
        )
    }
}

/// The points of the pairs in a hand, kept even where they outgrow a
/// `usize`.
pub(crate) fn tally_pairs(hand: &Vec<Card>) -> (points: CheckedUsize)
    ensures
        points@ == pairs_points(hand@),
{
    let mut count = CheckedUsize::new(0);
    let mut second: usize = 0;
    while second < hand.len()
        invariant
            second <= hand.len(),
            count@ == equal_rank_pairs(hand@, second as int),
        decreases hand.len() - second,
    {
        let mut first: usize = 0;
        let ghost ordinal = hand@[second as int].value.spec_ordinal();
        let ghost before = count@;
        while first < second
            invariant
                first <= second < hand.len(),
                ordinal == hand@[second as int].value.spec_ordinal(),
                before == equal_rank_pairs(hand@, second as int),
                count@ == before + rank_count(hand@, first as int, ordinal),
            decreases second - first,
        {
            if hand[first].value == hand[second].value {
                count = count.add_value(1);
            }
            first += 1;
        }
        second += 1;
    }
    count.mul_value(2)
}

/// Scores the pairs in a hand: two points for each pair of positions that
/// hold cards of one rank, which comes to `2 * C(k, 2)` for each group of
/// `k` cards of one rank. Three of a kind hold three such pairs, four of a
/// kind six.
///
/// The points must fit the result, as those of any hand of up to
/// [`MAX_HAND`](crate::laws::MAX_HAND) cards do
/// ([`lemma_small_hand_fits`](crate::laws::lemma_small_hand_fits)). For
/// other hands see [`checked_score_pairs`].
pub fn score_pairs(hand: &Vec<Card>) -> (points: usize)
    requires
        pairs_points(hand@) <= usize::MAX,
    ensures
        points == pairs_points(hand@),
        points == 2 * pairs_in_rank_groups(hand@, 13),
{
    proof {
        lemma_pairs_fall_into_rank_groups(hand@);
    }
    tally_pairs(hand).unwrap()
}

/// Scores the pairs in any hand: the points where they fit a `usize`, and
/// `None` where they do not.
pub fn checked_score_pairs(hand: &Vec<Card>) -> (points: Option<usize>)
    ensures
        points is Some <==> pairs_points(hand@) <= usize::MAX,
        points matches Some(fitting) ==> fitting == pairs_points(hand@) && fitting == 2
            * pairs_in_rank_groups(hand@, 13),
        hand@.len() <= MAX_HAND ==> points is Some,
{
    proof {
        lemma_pairs_fall_into_rank_groups(hand@);
        if hand@.len() <= MAX_HAND {
            lemma_small_hand_fits(hand@);
        }
    }
    tally_pairs(hand).to_option()
}

/// Taking one more card into a group of `size` cards adds `size` pairs.
proof fn lemma_choose_two_step(size: nat)
    ensures
        choose_two(size + 1) == choose_two(size) + size,
{
    assert(((size + 1) * size) == (size * (size - 1)) + 2 * size) by (nonlinear_arith);
    assert(size * (size - 1) >= 0) by (nonlinear_arith);
    assert((size + 1) * (size + 1 - 1) == (size + 1) * size);
}

/// The counts of `hand` over its first `upto` cards are those of the hand cut
/// off there.
proof fn lemma_counts_of_prefix(hand: Seq<Card>, cut: int, upto: int, ordinal: int)
    requires
        0 <= upto <= cut <= hand.len(),
    ensures
        rank_count(hand.take(cut), upto, ordinal) == rank_count(hand, upto, ordinal),
        equal_rank_pairs(hand.take(cut), upto) == equal_rank_pairs(hand, upto),
    decreases upto,
{
    if upto > 0 {
        lemma_counts_of_prefix(hand, cut, upto - 1, ordinal);
        lemma_counts_of_prefix(hand, cut, upto - 1, hand[upto - 1].value.spec_ordinal());
    }
}

/// The last card of a hand adds to the pairs within the rank groups as many
/// as there are cards of its rank before it.
proof fn lemma_groups_with_one_more(hand: Seq<Card>, highest: int)
    requires
        hand.len() > 0,
        0 <= highest,
    ensures
        pairs_in_rank_groups(hand, highest) == pairs_in_rank_groups(hand.drop_last(), highest)
            + if hand.last().value.spec_ordinal() <= highest {
            rank_count(hand, hand.len() - 1, hand.last().value.spec_ordinal())
        } else {
            0
        },
    decreases highest,
{
    if highest > 0 {
        lemma_groups_with_one_more(hand, highest - 1);
        let shorter = hand.drop_last();
        let added = hand.last().value.spec_ordinal();
        assert(shorter =~= hand.take(hand.len() - 1));
        lemma_counts_of_prefix(hand, hand.len() - 1, hand.len() - 1, highest);
        assert(rank_count(shorter, shorter.len() as int, highest) == rank_count(
            hand,
            hand.len() - 1,
            highest,
        ));
        if added == highest {
            lemma_choose_two_step(rank_count(hand, hand.len() - 1, highest));
        }
    }
}

/// An empty hand holds no pair in any rank group.
proof fn lemma_empty_hand_has_no_groups(hand: Seq<Card>, highest: int)
    requires
        hand.len() == 0,
    ensures
        pairs_in_rank_groups(hand, highest) == 0,
    decreases highest,
{
    if highest > 0 {
        lemma_empty_hand_has_no_groups(hand, highest - 1);
        assert(choose_two(0) == 0);
    }
}

/// The pairs of equal rank are the pairs within the groups of equal rank: a
/// hand scores `2 * C(k, 2)` for each group of `k` cards of one rank.
pub proof fn lemma_pairs_fall_into_rank_groups(hand: Seq<Card>)
    ensures
        equal_rank_pairs(hand, hand.len() as int) == pairs_in_rank_groups(hand, 13),
        pairs_points(hand) == 2 * pairs_in_rank_groups(hand, 13),
    decreases hand.len(),
{
    if hand.len() == 0 {
        lemma_empty_hand_has_no_groups(hand, 13);
    } else {
        let shorter = hand.drop_last();
        lemma_pairs_fall_into_rank_groups(shorter);
        lemma_groups_with_one_more(hand, 13);
        assert(1 <= hand.last().value.spec_ordinal() <= 13);
        assert(shorter =~= hand.take(hand.len() - 1));
        lemma_counts_of_prefix(hand, hand.len() - 1, hand.len() - 1, 0);
    }
}

} // verus!
