//! What holds of the three rules together: the points depend on the cards
//! of a hand and not on their order, a hand always scores the same, and the
//! points of a small hand fit the machine's integers.

use crate::cards::Card;
use crate::fifteens::{fifteens_points, lemma_subsets_bounded, subsets_summing_to};
use crate::pairs::{
    choose_two, equal_rank_pairs, lemma_pairs_fall_into_rank_groups, pairs_in_rank_groups,
    pairs_points, rank_count,
};
use crate::runs::{
    duplicate_gaps, lemma_run_bounds, rank_gaps, run_length, run_points, runs_points,
};
use crate::scoring::{total_points, Scorer};
use crate::sorting::{card_order, lemma_card_order_is_total, lemma_sorted_hand_is_unique, sorted_hand};
use vstd::arithmetic::power2::{lemma2_to64, lemma_pow2_strictly_increases, pow2};
use vstd::prelude::*;

verus! {

/// The largest hand whose points are known to fit a `usize` on every
/// machine, under each rule and in total.
pub const MAX_HAND: usize = 24;

/// Takes the item at `position` out of `first` and finds it in `second`, a
/// sequence of the same items: what is left of the two holds the same items
/// again.
proof fn lemma_same_items_without<T>(first: Seq<T>, position: int, second: Seq<T>) -> (found: int)
    requires
        first.to_multiset() == second.to_multiset(),
        0 <= position < first.len(),
    ensures
        0 <= found < second.len(),
        second[found] == first[position],
        first.remove(position).to_multiset() == second.remove(found).to_multiset(),
{
    broadcast use vstd::seq_lib::group_to_multiset_ensures;

    let item = first[position];
    assert(first.contains(item));
    assert(second.to_multiset().count(item) > 0);
    assert(second.contains(item));
    let found = choose|found: int| 0 <= found < second.len() && second[found] == item;
    vstd::seq_lib::to_multiset_remove(first, position);
    vstd::seq_lib::to_multiset_remove(second, found);
    found
}

/// The subsets of a hand are those of the hand without one card, once
/// without that card and once with it.
proof fn lemma_subsets_without(hand: Seq<Card>, position: int, target: int)
    requires
        0 <= position < hand.len(),
    ensures
        subsets_summing_to(hand, target) == subsets_summing_to(hand.remove(position), target)
            + subsets_summing_to(
            hand.remove(position),
            target - hand[position].value.spec_cribbage_value(),
        ),
    decreases hand.len(),
{
    if position == 0 {
        assert(hand.remove(0) =~= hand.drop_first());
    } else {
        let rest = hand.drop_first();
        let head = hand.first().value.spec_cribbage_value();
        let shorter = hand.remove(position);
        assert(shorter.drop_first() =~= rest.remove(position - 1));
        assert(shorter.first() == hand.first());
        assert(rest[position - 1] == hand[position]);
        lemma_subsets_without(rest, position - 1, target);
        lemma_subsets_without(rest, position - 1, target - head);
    }
}

/// The number of subsets that add up to `target` is the same for two hands
/// of the same cards.
proof fn lemma_subsets_ignore_order(first: Seq<Card>, second: Seq<Card>, target: int)
    requires
        first.to_multiset() == second.to_multiset(),
    ensures
        subsets_summing_to(first, target) == subsets_summing_to(second, target),
    decreases first.len(),
{
    broadcast use vstd::seq_lib::group_to_multiset_ensures;

    vstd::seq_lib::to_multiset_len(first);
    vstd::seq_lib::to_multiset_len(second);
    if first.len() > 0 {
        let found = lemma_same_items_without(first, 0, second);
        let value = first[0].value.spec_cribbage_value();
        assert(first.remove(0) =~= first.drop_first());
        lemma_subsets_ignore_order(first.drop_first(), second.remove(found), target);
        lemma_subsets_ignore_order(first.drop_first(), second.remove(found), target - value);
        lemma_subsets_without(second, found, target);
    }
}

/// A rank occurs in a hand as often as in the hand without one card, and
/// once more if that card is of the rank.
proof fn lemma_rank_count_without(hand: Seq<Card>, position: int, ordinal: int)
    requires
        0 <= position < hand.len(),
    ensures
        rank_count(hand, hand.len() as int, ordinal) == rank_count(
            hand.remove(position),
            hand.len() - 1,
            ordinal,
        ) + if hand[position].value.spec_ordinal() == ordinal {
            1nat
        } else {
            0nat
        },
    decreases hand.len(),
{
    let shorter = hand.remove(position);
    if position == hand.len() - 1 {
        assert(shorter =~= hand.take(hand.len() - 1));
        lemma_rank_count_of_prefix(hand, hand.len() - 1, ordinal);
    } else {
        let front = hand.drop_last();
        assert(front.remove(position) =~= shorter.drop_last());
        assert(shorter.last() == hand.last());
        lemma_rank_count_without(front, position, ordinal);
        assert(front =~= hand.take(hand.len() - 1));
        lemma_rank_count_of_prefix(hand, hand.len() - 1, ordinal);
        assert(shorter.drop_last() =~= shorter.take(shorter.len() - 1));
        lemma_rank_count_of_prefix(shorter, shorter.len() - 1, ordinal);
    }
}

/// Counting a rank over a hand cut off at `cut` is counting it over the
/// first `cut` cards of the hand.
proof fn lemma_rank_count_of_prefix(hand: Seq<Card>, cut: int, ordinal: int)
    requires
        0 <= cut <= hand.len(),
    ensures
        rank_count(hand.take(cut), cut, ordinal) == rank_count(hand, cut, ordinal),
    decreases cut,
{
    if cut > 0 {
        assert(hand.take(cut).take(cut - 1) =~= hand.take(cut - 1));
        lemma_rank_count_of_prefix(hand.take(cut), cut - 1, ordinal);
        lemma_rank_count_of_prefix(hand, cut - 1, ordinal);
    }
}

/// A rank occurs equally often in two hands of the same cards.
proof fn lemma_rank_count_ignores_order(first: Seq<Card>, second: Seq<Card>, ordinal: int)
    requires
        first.to_multiset() == second.to_multiset(),
    ensures
        rank_count(first, first.len() as int, ordinal) == rank_count(
            second,
            second.len() as int,
            ordinal,
        ),
    decreases first.len(),
{
    broadcast use vstd::seq_lib::group_to_multiset_ensures;

    vstd::seq_lib::to_multiset_len(first);
    vstd::seq_lib::to_multiset_len(second);
    if first.len() > 0 {
        let found = lemma_same_items_without(first, 0, second);
        lemma_rank_count_ignores_order(first.remove(0), second.remove(found), ordinal);
        lemma_rank_count_without(first, 0, ordinal);
        lemma_rank_count_without(second, found, ordinal);
    }
}

/// The pairs within the rank groups are the same for two hands of the same
/// cards.
proof fn lemma_rank_groups_ignore_order(first: Seq<Card>, second: Seq<Card>, highest: int)
    requires
        first.to_multiset() == second.to_multiset(),
    ensures
        pairs_in_rank_groups(first, highest) == pairs_in_rank_groups(second, highest),
    decreases highest,
{
    if highest > 0 {
        lemma_rank_groups_ignore_order(first, second, highest - 1);
        lemma_rank_count_ignores_order(first, second, highest);
    }
}

/// The points of a hand do not depend on the order of its cards: two hands
/// that hold the same cards, each as often as the other, score the same
/// under every rule.
pub proof fn lemma_scores_ignore_order(first: Seq<Card>, second: Seq<Card>)
    requires
        first.to_multiset() == second.to_multiset(),
    ensures
        fifteens_points(first) == fifteens_points(second),
        pairs_points(first) == pairs_points(second),
        runs_points(first) == runs_points(second),
        sorted_hand(first) == sorted_hand(second),
{
    lemma_subsets_ignore_order(first, second, 15);
    lemma_pairs_fall_into_rank_groups(first);
    lemma_pairs_fall_into_rank_groups(second);
    lemma_rank_groups_ignore_order(first, second, 13);
    lemma_card_order_is_total();
    first.lemma_sort_by_ensures(card_order());
    lemma_sorted_hand_is_unique(second, sorted_hand(first));
}

/// The total of a hand does not depend on the order of its cards either.
pub proof fn lemma_total_ignores_card_order(
    rules: Seq<Scorer>,
    first: Seq<Card>,
    second: Seq<Card>,
)
    requires
        first.to_multiset() == second.to_multiset(),
    ensures
        total_points(rules, first) == total_points(rules, second),
    decreases rules.len(),
{
    if rules.len() > 0 {
        lemma_total_ignores_card_order(rules.drop_last(), first, second);
        lemma_scores_ignore_order(first, second);
    }
}

/// The total over a list of rules is the total over the list without one
/// rule, and the points of that rule.
proof fn lemma_total_without(rules: Seq<Scorer>, position: int, hand: Seq<Card>)
    requires
        0 <= position < rules.len(),
    ensures
        total_points(rules, hand) == total_points(rules.remove(position), hand)
            + rules[position].rule.points(hand),
    decreases rules.len(),
{
    if position == rules.len() - 1 {
        assert(rules.remove(position) =~= rules.drop_last());
    } else {
        let shorter = rules.remove(position);
        assert(shorter.drop_last() =~= rules.drop_last().remove(position));
        assert(shorter.last() == rules.last());
        lemma_total_without(rules.drop_last(), position, hand);
    }
}

/// The rules score a hand each on its own, so the total does not depend on
/// the order in which they are listed.
pub proof fn lemma_total_ignores_rule_order(
    first: Seq<Scorer>,
    second: Seq<Scorer>,
    hand: Seq<Card>,
)
    requires
        first.to_multiset() == second.to_multiset(),
    ensures
        total_points(first, hand) == total_points(second, hand),
    decreases first.len(),
{
    vstd::seq_lib::to_multiset_len(first);
    vstd::seq_lib::to_multiset_len(second);
    if first.len() > 0 {
        let last = first.len() - 1;
        let found = lemma_same_items_without(first, last, second);
        assert(first.remove(last) =~= first.drop_last());
        lemma_total_ignores_rule_order(first.drop_last(), second.remove(found), hand);
        lemma_total_without(second, found, hand);
    }
}

/// Scoring is a function of the hand: whenever a rule is asked about the
/// same cards in the same order, it gives the same points. (Each scoring
/// function returns the points named here and leaves the hand as it is.)
pub proof fn lemma_same_hand_same_score(first: Vec<Card>, second: Vec<Card>)
    requires
        first@ == second@,
    ensures
        fifteens_points(first@) == fifteens_points(second@),
        pairs_points(first@) == pairs_points(second@),
        runs_points(first@) == runs_points(second@),
{
}

/// A hand of one card or none scores nothing under any rule.
pub proof fn lemma_lone_card_scores_nothing(hand: Seq<Card>)
    requires
        hand.len() <= 1,
    ensures
        fifteens_points(hand) == 0,
        pairs_points(hand) == 0,
        runs_points(hand) == 0,
{
    reveal_with_fuel(subsets_summing_to, 3);
    reveal_with_fuel(equal_rank_pairs, 3);
    lemma_card_order_is_total();
    hand.lemma_sort_by_ensures(card_order());
    vstd::seq_lib::to_multiset_len(hand);
    vstd::seq_lib::to_multiset_len(sorted_hand(hand));
}

/// Whether all cards of `hand` are of one rank.
pub open spec fn of_one_rank(hand: Seq<Card>) -> bool {
    forall|i: int, j: int|
        0 <= i < j < hand.len() ==> (#[trigger] hand[i]).value == (#[trigger] hand[j]).value
}

/// Among cards of one rank every card pairs with every card before it.
proof fn lemma_one_rank_counts(hand: Seq<Card>, upto: int)
    requires
        0 <= upto <= hand.len(),
        of_one_rank(hand),
    ensures
        rank_count(hand, upto, hand[0].value.spec_ordinal()) == upto,
        equal_rank_pairs(hand, upto) == choose_two(upto as nat),
    decreases upto,
{
    if upto > 0 {
        lemma_one_rank_counts(hand, upto - 1);
        assert(upto == 1 || hand[0].value == hand[upto - 1].value);
        assert(upto * (upto - 1) == (upto - 1) * (upto - 2) + 2 * (upto - 1))
            by (nonlinear_arith);
        assert((upto - 1) * (upto - 2) >= 0) by (nonlinear_arith)
            requires
                upto >= 1,
        ;
    }
}

/// Cards of one rank score a pair for every two of them: three of a kind
/// score 6, four of a kind 12.
pub proof fn lemma_of_a_kind_scores_every_pair(hand: Seq<Card>)
    requires
        of_one_rank(hand),
    ensures
        pairs_points(hand) == 2 * choose_two(hand.len()),
        hand.len() == 3 ==> pairs_points(hand) == 6,
        hand.len() == 4 ==> pairs_points(hand) == 12,
{
    lemma_one_rank_counts(hand, hand.len() as int);
    assert(choose_two(3) == 3 && choose_two(4) == 6) by {
        assert(3 * (3 - 1) == 6 && 4 * (4 - 1) == 12) by (nonlinear_arith);
    }
}

/// Whether each card of `hand` is of the rank next above that of the card
/// before it.
pub open spec fn climbs_by_one(hand: Seq<Card>) -> bool {
    forall|i: int|
        0 <= i < hand.len() - 1 ==> #[trigger] hand[i + 1].value.spec_ordinal()
            == hand[i].value.spec_ordinal() + 1
}

/// In a hand that climbs by one, the ranks are as far apart as the places.
proof fn lemma_climb_spans(hand: Seq<Card>, low: int, high: int)
    requires
        climbs_by_one(hand),
        0 <= low <= high < hand.len(),
    ensures
        hand[high].value.spec_ordinal() == hand[low].value.spec_ordinal() + (high - low),
    decreases high - low,
{
    if low < high {
        lemma_climb_spans(hand, low, high - 1);
        assert(hand[(high - 1) + 1].value.spec_ordinal() == hand[high - 1].value.spec_ordinal()
            + 1);
    }
}

/// Where every gap is one, each gap adds a card to the run and none is a
/// duplicate.
proof fn lemma_unit_gaps(gaps: Seq<int>, upto: int)
    requires
        0 <= upto <= gaps.len(),
        forall|i: int| 0 <= i < gaps.len() ==> gaps[i] == 1,
    ensures
        run_length(gaps, upto) == 1 + upto,
        duplicate_gaps(gaps, upto) == 0,
    decreases upto,
{
    if upto > 0 {
        lemma_unit_gaps(gaps, upto - 1);
    }
}

/// A plain run scores its length: three or more cards of consecutive ranks,
/// each rank once, score one point a card, in whatever order they lie
/// (for the order, see [`lemma_scores_ignore_order`]).
pub proof fn lemma_plain_run_scores_its_length(hand: Seq<Card>)
    requires
        hand.len() >= 3,
        climbs_by_one(hand),
    ensures
        runs_points(hand) == hand.len(),
{
    assert forall|i: int, j: int| 0 <= i < j < hand.len() implies #[trigger] card_order()(
        hand[i],
        hand[j],
    ) by {
        lemma_climb_spans(hand, i, j);
    }
    lemma_sorted_hand_is_unique(hand, hand);
    let gaps = rank_gaps(hand);
    assert forall|i: int| 0 <= i < gaps.len() implies gaps[i] == 1 by {
        assert(hand[i + 1].value.spec_ordinal() == hand[i].value.spec_ordinal() + 1);
    }
    lemma_unit_gaps(gaps, gaps.len() as int);
    lemma2_to64();
}

/// The fifteens always score an even number of points.
pub proof fn lemma_fifteens_points_even(hand: Seq<Card>)
    ensures
        fifteens_points(hand) % 2 == 0,
{
}

/// Among `upto` cards no rank occurs more than `upto` times, and no more
/// than `limit` pairs end at any one of them.
proof fn lemma_pairs_bounded(hand: Seq<Card>, upto: int, limit: int, ordinal: int)
    requires
        0 <= upto <= limit,
    ensures
        rank_count(hand, upto, ordinal) <= upto,
        equal_rank_pairs(hand, upto) <= limit * upto,
    decreases upto,
{
    if upto > 0 {
        lemma_pairs_bounded(hand, upto - 1, limit, ordinal);
        lemma_pairs_bounded(hand, upto - 1, limit, hand[upto - 1].value.spec_ordinal());
        assert(limit * upto == limit * (upto - 1) + limit) by (nonlinear_arith);
    }
}

/// A sequence of at most `limit` gaps scores at most `(limit + 1) * 2^limit`.
proof fn lemma_run_points_bounded(gaps: Seq<int>, limit: nat)
    requires
        gaps.len() <= limit,
    ensures
        run_points(gaps) <= (limit + 1) * pow2(limit),
{
    let length = run_length(gaps, gaps.len() as int);
    let duplicates = duplicate_gaps(gaps, gaps.len() as int);
    lemma_run_bounds(gaps, gaps.len() as int);
    if duplicates < limit {
        lemma_pow2_strictly_increases(duplicates, limit);
    }
    vstd::arithmetic::power2::lemma_pow2_pos(duplicates);
    if length >= 3 {
        assert((length as nat) * pow2(duplicates) <= (limit + 1) * pow2(limit))
            by (nonlinear_arith)
            requires
                3 <= length <= limit + 1,
                0 < pow2(duplicates) <= pow2(limit),
        ;
    } else {
        assert(0 <= (limit + 1) * pow2(limit)) by (nonlinear_arith);
    }
}

/// A hand of at most [`MAX_HAND`] cards can be scored on every machine: its
/// points under the three rules, and their sum, fit a `usize`.
pub proof fn lemma_small_hand_fits(hand: Seq<Card>)
    requires
        hand.len() <= MAX_HAND,
    ensures
        fifteens_points(hand) + pairs_points(hand) + runs_points(hand) <= usize::MAX,
{
    lemma2_to64();
    lemma_subsets_bounded(hand, 15);
    if hand.len() < 24 {
        lemma_pow2_strictly_increases(hand.len(), 24);
    }
    assert(fifteens_points(hand) <= 2 * 0x1000000);
    lemma_pairs_bounded(hand, hand.len() as int, 24, 0);
    assert(24 * (hand.len() as int) <= 24 * 24) by (nonlinear_arith)
        requires
            hand.len() <= 24,
    ;
    assert(pairs_points(hand) <= 2 * 576);
    lemma_card_order_is_total();
    hand.lemma_sort_by_ensures(card_order());
    vstd::seq_lib::to_multiset_len(hand);
    vstd::seq_lib::to_multiset_len(sorted_hand(hand));
    lemma_run_points_bounded(rank_gaps(sorted_hand(hand)), 23);
    assert(runs_points(hand) <= 24 * 0x800000);
}

} // verus!
