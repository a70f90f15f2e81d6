//! The fifteens rule: two points for every set of cards whose cribbage
//! values add up to fifteen.

use crate::cards::Card;
use crate::laws::{lemma_small_hand_fits, MAX_HAND};
use vstd::arithmetic::overflow::CheckedUsize;
use vstd::prelude::*;

verus! {

/// The number of subsets of `hand` whose cribbage values add up to `target`.
///
/// A subset is a choice of positions, so two cards of one rank and suit count
/// as two. Each subset either leaves the first card out or takes it in; the
/// empty subset adds up to zero.
pub open spec fn subsets_summing_to(hand: Seq<Card>, target: int) -> nat
    decreases hand.len(),
{
    if hand.len() == 0 {
        if target == 0 {
            1
        } else {
            0
        }
    } else {
        subsets_summing_to(hand.drop_first(), target) + subsets_summing_to(
            hand.drop_first(),
            target - hand.first().value.spec_cribbage_value(),
        )
    }
}

/// The points that the fifteens rule gives a hand: two for each subset that
/// adds up to fifteen.
pub open spec fn fifteens_points(hand: Seq<Card>) -> nat {
    2 * subsets_summing_to(hand, 15)
}

/// No subset adds up to less than nothing.
pub proof fn lemma_no_subset_below_zero(hand: Seq<Card>, target: int)
    requires
        target < 0,
    ensures
        subsets_summing_to(hand, target) == 0,
    decreases hand.len(),
{
    if hand.len() > 0 {
        lemma_no_subset_below_zero(hand.drop_first(), target);
        lemma_no_subset_below_zero(
            hand.drop_first(),
            target - hand.first().value.spec_cribbage_value(),
        );
    }
}

/// Every card counts at least one, so only the empty subset adds up to zero.
pub proof fn lemma_one_subset_sums_to_zero(hand: Seq<Card>)
    ensures
        subsets_summing_to(hand, 0) == 1,
    decreases hand.len(),
{
    if hand.len() > 0 {
        lemma_one_subset_sums_to_zero(hand.drop_first());
        lemma_no_subset_below_zero(
            hand.drop_first(),
            0 - hand.first().value.spec_cribbage_value(),
        );
    }
}

/// A hand of `n` cards has at most `2^n` subsets, whatever they add up to.
pub proof fn lemma_subsets_bounded(hand: Seq<Card>, target: int)
    ensures
        subsets_summing_to(hand, target) <= vstd::arithmetic::power2::pow2(hand.len()),
    decreases hand.len(),
{
    if hand.len() == 0 {
        vstd::arithmetic::power2::lemma2_to64();
    } else {
        lemma_subsets_bounded(hand.drop_first(), target);
        lemma_subsets_bounded(
            hand.drop_first(),
            target - hand.first().value.spec_cribbage_value(),
        );
        vstd::arithmetic::power2::lemma_pow2_unfold(hand.len());
    }
}

/// Counts the subsets of the cards from `start` on that add up to `target`.
///
/// The subsets are told apart by their lowest position: for each card that
/// still fits into `target`, the subsets that begin with it are those of the
/// cards behind it that add up to the rest. The count is kept even where it
/// outgrows a `usize`.
fn count_subsets(hand: &Vec<Card>, start: usize, target: usize) -> (count: CheckedUsize)
    requires
        start <= hand.len(),
    ensures
        count@ == subsets_summing_to(hand@.skip(start as int), target as int),
    decreases target,
{
    if target == 0 {
        proof {
            lemma_one_subset_sums_to_zero(hand@.skip(start as int));
        }
        return CheckedUsize::new(1);
    }
    let ghost wanted = subsets_summing_to(hand@.skip(start as int), target as int);
    let mut count = CheckedUsize::new(0);
    let mut lowest: usize = start;
    while lowest < hand.len()
        invariant
            start <= lowest <= hand.len(),
            0 < target,
            count@ + subsets_summing_to(hand@.skip(lowest as int), target as int) == wanted,
        decreases hand.len() - lowest,
    {
        let value = hand[lowest].to_cribbage_value();
        proof {
            let rest = hand@.skip(lowest as int);
            assert(rest.drop_first() =~= hand@.skip(lowest + 1));
            assert(rest.first() == hand@[lowest as int]);
            if value > target {
                lemma_no_subset_below_zero(hand@.skip(lowest + 1), target - value);
            }
        }
        if value <= target {
            count = count.add_checked(&count_subsets(hand, lowest + 1, target - value));
        }
        lowest += 1;
    }
    proof {
        assert(hand@.skip(lowest as int).len() == 0);
    }
    count
}

/// The points of the fifteens in a hand, kept even where they outgrow a
/// `usize`.
pub(crate) fn tally_fifteens(hand: &Vec<Card>) -> (points: CheckedUsize)
    ensures
        points@ == fifteens_points(hand@),
{
    proof {
        assert(hand@.skip(0) =~= hand@);
    }
    count_subsets(hand, 0, 15).mul_value(2)
}

/// Scores the fifteens in a hand: two points for each subset of its cards
/// whose cribbage values add up to exactly fifteen.
///
/// The points must fit the result, as those of any hand of up to
/// [`MAX_HAND`](crate::laws::MAX_HAND) cards do
/// ([`lemma_small_hand_fits`](crate::laws::lemma_small_hand_fits)). For
/// other hands see [`checked_score_fifteens`].
pub fn score_fifteens(hand: &Vec<Card>) -> (points: usize)
    requires
        fifteens_points(hand@) <= usize::MAX,
    ensures
        points == fifteens_points(hand@),
        points % 2 == 0,
{
    tally_fifteens(hand).unwrap()
}

/// Scores the fifteens in any hand: the points where they fit a `usize`,
/// and `None` where they do not.
pub fn checked_score_fifteens(hand: &Vec<Card>) -> (points: Option<usize>)
    ensures
        points is Some <==> fifteens_points(hand@) <= usize::MAX,
        points matches Some(fitting) ==> fitting == fifteens_points(hand@) && fitting % 2 == 0,
        hand@.len() <= MAX_HAND ==> points is Some,
{
    proof {
        if hand@.len() <= MAX_HAND {
            lemma_small_hand_fits(hand@);
        }
    }
    tally_fifteens(hand).to_option()
}

} // verus!
