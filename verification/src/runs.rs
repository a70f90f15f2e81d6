//! The runs rule: the run of consecutive ranks in a hand, multiplied by the
//! duplicate ranks found beside it.
//!
//! The rule looks at the sorted hand through the differences between
//! neighbouring ranks. A difference of one lengthens the run, a difference of
//! zero doubles its worth, and a larger difference that is neither the first
//! nor the last one shortens the run again. The rule follows one run only: a
//! hand that holds two separate runs is scored by the same walk, whatever
//! the game would give it.

use crate::cards::Card;
use crate::laws::{lemma_small_hand_fits, MAX_HAND};
use crate::sorting::{sort_hand, sorted_hand};
use vstd::arithmetic::overflow::CheckedUsize;
use vstd::arithmetic::power2::{lemma_pow2_unfold, pow2};
use vstd::math::abs;
use vstd::prelude::*;

verus! {

/// Where an element stands among the elements of a sequence.
#[derive(Debug, Clone, Copy, PartialEq, Eq, Structural)]
pub enum Position {
    /// The first of several.
    First,
    /// Neither the first nor the last.
    Middle,
    /// The last of several.
    Last,
    /// The only one.
    Only,
}

/// The position of element `index` among `count` elements.
pub open spec fn spec_position(index: int, count: int) -> Position {
    if count == 1 {
        Position::Only
    } else if index == 0 {
        Position::First
    } else if index == count - 1 {
        Position::Last
    } else {
        Position::Middle
    }
}

/// The position of element `index` among `count` elements.
pub fn position_of(index: usize, count: usize) -> (position: Position)
    requires
        index < count,
    ensures
        position == spec_position(index as int, count as int),
{
    if count == 1 {
        Position::Only
    } else if index == 0 {
        Position::First
    } else if index == count - 1 {
        Position::Last
    } else {
        Position::Middle
    }
}

/// The differences between neighbouring rank ordinals of `cards`, as
/// absolute values: one fewer than there are cards, none for an empty hand.
pub open spec fn rank_gaps(cards: Seq<Card>) -> Seq<int> {
    Seq::new(
        if cards.len() == 0 {
            0
        } else {
            (cards.len() - 1) as nat
        },
        |i: int| abs(cards[i].value.spec_ordinal() - cards[i + 1].value.spec_ordinal()) as int,
    )
}

/// What the gap at `index` does to the length of the run: a gap of one adds a
/// card to it, a wider gap in the middle of the hand takes one away, and
/// every other gap leaves it alone.
pub open spec fn run_step(gaps: Seq<int>, index: int) -> int {
    if gaps[index] == 1 {
        1
    } else if gaps[index] > 1 && spec_position(index, gaps.len() as int) == Position::Middle {
        -1
    } else {
        0
    }
}

/// The length of the run after the first `upto` gaps: it starts at one card.
pub open spec fn run_length(gaps: Seq<int>, upto: int) -> int
    decreases upto,
{
    if upto <= 0 {
        1
    } else {
        run_length(gaps, upto - 1) + run_step(gaps, upto - 1)
    }
}

/// How many of the first `upto` gaps are zero, that is, lie between two
/// cards of one rank.
pub open spec fn duplicate_gaps(gaps: Seq<int>, upto: int) -> nat
    decreases upto,
{
    if upto <= 0 {
        0
    } else {
        duplicate_gaps(gaps, upto - 1) + if gaps[upto - 1] == 0 {
            1nat
        } else {
            0nat
        }
    }
}

/// The points for a sequence of gaps: a run of three cards or more scores its
/// length, doubled once for each duplicate; a shorter one scores nothing.
pub open spec fn run_points(gaps: Seq<int>) -> nat {
    let length = run_length(gaps, gaps.len() as int);
    if length >= 3 {
        (length as nat) * pow2(duplicate_gaps(gaps, gaps.len() as int))
    } else {
        0
    }
}

/// The points that the runs rule gives a hand: those of the gaps of its
/// sorted arrangement.
pub open spec fn runs_points(hand: Seq<Card>) -> nat {
    run_points(rank_gaps(sorted_hand(hand)))
}

/// The run never grows or shrinks by more than one card per gap, and no more
/// gaps are duplicates than there are gaps.
pub proof fn lemma_run_bounds(gaps: Seq<int>, upto: int)
    requires
        0 <= upto,
    ensures
        1 - upto <= run_length(gaps, upto) <= 1 + upto,
        duplicate_gaps(gaps, upto) <= upto,
    decreases upto,
{
    if upto > 0 {
        lemma_run_bounds(gaps, upto - 1);
    }
}

/// Two to the power `exponent`, kept even where it outgrows a `usize`.
fn power_of_two(exponent: usize) -> (power: CheckedUsize)
    ensures
        power@ == pow2(exponent as nat),
{
    let mut power = CheckedUsize::new(1);
    let mut done: usize = 0;
    proof {
        vstd::arithmetic::power2::lemma2_to64();
    }
    while done < exponent
        invariant
            done <= exponent,
            power@ == pow2(done as nat),
        decreases exponent - done,
    {
        proof {
            lemma_pow2_unfold((done + 1) as nat);
        }
        power = power.mul_value(2);
        done += 1;
    }
    power
}

/// The points of the runs in a hand, kept even where they outgrow a `usize`.
///
/// The hand is sorted in a copy, and the differences between neighbouring
/// ranks are walked once, from the lowest card up.
pub(crate) fn tally_runs(hand: &Vec<Card>) -> (points: CheckedUsize)
    ensures
        points@ == runs_points(hand@),
{
    let sorted = sort_hand(hand);
    let gap_count: usize = if sorted.len() == 0 {
        0
    } else {
        sorted.len() - 1
    };
    let ghost gaps = rank_gaps(sorted@);
    let mut consecutive_count: i128 = 1;
    let mut duplicates: usize = 0;
    let mut index: usize = 0;
    while index < gap_count
        invariant
            index <= gap_count,
            gap_count == gaps.len(),
            gaps == rank_gaps(sorted@),
            consecutive_count == run_length(gaps, index as int),
            duplicates == duplicate_gaps(gaps, index as int),
        decreases gap_count - index,
    {
        proof {
            lemma_run_bounds(gaps, index as int);
        }
        let lower = sorted[index].to_rank_value();
        let upper = sorted[index + 1].to_rank_value();
        let difference: usize = if lower <= upper {
            upper - lower
        } else {
            lower - upper
        };
        assert(difference == gaps[index as int]);
        if difference == 0 {
            duplicates += 1;
        } else if difference == 1 {
            consecutive_count += 1;
        } else if position_of(index, gap_count) == Position::Middle {
            consecutive_count -= 1;
        }
        index += 1;
    }
    if consecutive_count >= 3 {
        proof {
            lemma_run_bounds(gaps, gap_count as int);
        }
        let length = consecutive_count as usize;
        CheckedUsize::new(length).mul_checked(&power_of_two(duplicates))
    } else {
        CheckedUsize::new(0)
    }
}

/// Scores the runs in a hand: the length of the run that the sorted hand
/// shows, doubled for each pair of neighbours of one rank, or nothing where
/// the run is shorter than three cards.
///
/// The points must fit the result, as those of any hand of up to
/// [`MAX_HAND`](crate::laws::MAX_HAND) cards do
/// ([`lemma_small_hand_fits`](crate::laws::lemma_small_hand_fits)). For
/// other hands see [`checked_score_runs`].
pub fn score_runs(hand: &Vec<Card>) -> (points: usize)
    requires
        runs_points(hand@) <= usize::MAX,
    ensures
        points == runs_points(hand@),
{
    tally_runs(hand).unwrap()
}

/// Scores the runs in any hand: the points where they fit a `usize`, and
/// `None` where they do not.
pub fn checked_score_runs(hand: &Vec<Card>) -> (points: Option<usize>)
    ensures
        points is Some <==> runs_points(hand@) <= usize::MAX,
        points matches Some(fitting) ==> fitting == runs_points(hand@),
        hand@.len() <= MAX_HAND ==> points is Some,
{
    proof {
        if hand@.len() <= MAX_HAND {
            lemma_small_hand_fits(hand@);
        }
    }
    tally_runs(hand).to_option()
}

} // verus!
