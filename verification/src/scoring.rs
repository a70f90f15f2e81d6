//! The rules by name: the list of rules that score a hand at the show, and
//! the total they give.

use crate::cards::Card;
use crate::fifteens::{fifteens_points, tally_fifteens};
use crate::laws::{lemma_small_hand_fits, MAX_HAND};
use crate::pairs::{pairs_points, tally_pairs};
use crate::runs::{runs_points, tally_runs};
use vstd::arithmetic::overflow::CheckedUsize;
use vstd::prelude::*;

verus! {

/// The scoring rules. The set is closed: a hand at the show is scored by
/// these three and no others.
#[derive(Debug, Clone, Copy, PartialEq, Eq, Structural)]
pub enum Rule {
    /// Two points for each set of cards that adds up to fifteen.
    Fifteens,
    /// Two points for each pair of cards of one rank.
    Pairs,
    /// The length of the run, doubled for each duplicate rank.
    Runs,
}

impl Rule {
    /// The points that the rule gives a hand.
    pub open spec fn points(self, hand: Seq<Card>) -> nat {
        match self {
            Rule::Fifteens => fifteens_points(hand),
            Rule::Pairs => pairs_points(hand),
            Rule::Runs => runs_points(hand),
        }
    }
}

/// A rule under the name by which its points are reported.
pub struct Scorer {
    pub name: String,
    pub rule: Rule,
}

/// The points that the listed rules give a hand, added up.
pub open spec fn total_points(rules: Seq<Scorer>, hand: Seq<Card>) -> nat
    decreases rules.len(),
{
    if rules.len() == 0 {
        0
    } else {
        total_points(rules.drop_last(), hand) + rules.last().rule.points(hand)
    }
}

impl Scorer {
    /// The rules that score a hand at the show, in the order in which they
    /// are reported: fifteens, pairs, runs.
    pub fn rules_for_show() -> (rules: Vec<Scorer>)
        ensures
            rules@.len() == 3,
            rules@[0].name@ == "15"@ && rules@[0].rule == Rule::Fifteens,
            rules@[1].name@ == "Pair"@ && rules@[1].rule == Rule::Pairs,
            rules@[2].name@ == "Run"@ && rules@[2].rule == Rule::Runs,
    {
        let mut rules: Vec<Scorer> = Vec::new();
        rules.push(Scorer::solver_15());
        rules.push(Scorer::solver_pair());
        rules.push(Scorer::solver_run());
        rules
    }

    /// The fifteens rule, named "15".
    pub fn solver_15() -> (scorer: Scorer)
        ensures
            scorer.name@ == "15"@,
            scorer.rule == Rule::Fifteens,
    {
        Scorer { name: String::from_str("15"), rule: Rule::Fifteens }
    }

    /// The pairs rule, named "Pair".
    pub fn solver_pair() -> (scorer: Scorer)
        ensures
            scorer.name@ == "Pair"@,
            scorer.rule == Rule::Pairs,
    {
        Scorer { name: String::from_str("Pair"), rule: Rule::Pairs }
    }

    /// The runs rule, named "Run".
    pub fn solver_run() -> (scorer: Scorer)
        ensures
            scorer.name@ == "Run"@,
            scorer.rule == Rule::Runs,
    {
        Scorer { name: String::from_str("Run"), rule: Rule::Runs }
    }

    /// The points of a hand under this rule, kept even where they outgrow a
    /// `usize`.
    fn tally(&self, hand: &Vec<Card>) -> (points: CheckedUsize)
        ensures
            points@ == self.rule.points(hand@),
    {
        match self.rule {
            Rule::Fifteens => tally_fifteens(hand),
            Rule::Pairs => tally_pairs(hand),
            Rule::Runs => tally_runs(hand),
        }
    }

    /// Scores a hand by this rule. The hand is only read.
    ///
    /// The points must fit the result, as those of any hand of up to
    /// [`MAX_HAND`] cards do ([`lemma_small_hand_fits`]). For other hands see
    /// [`Scorer::checked_evaluate`].
    pub fn evaluate(&self, hand: &Vec<Card>) -> (points: usize)
        requires
            self.rule.points(hand@) <= usize::MAX,
        ensures
            points == self.rule.points(hand@),
    {
        self.tally(hand).unwrap()
    }

    /// Scores any hand by this rule: the points where they fit a `usize`,
    /// and `None` where they do not.
    pub fn checked_evaluate(&self, hand: &Vec<Card>) -> (points: Option<usize>)
        ensures
            points is Some <==> self.rule.points(hand@) <= usize::MAX,
            points matches Some(fitting) ==> fitting == self.rule.points(hand@),
            hand@.len() <= MAX_HAND ==> points is Some,
    {
        proof {
            if hand@.len() <= MAX_HAND {
                lemma_small_hand_fits(hand@);
            }
        }
        self.tally(hand).to_option()
    }
}

/// The total of a hand under the listed rules, kept even where it outgrows
/// a `usize`.
fn tally_total(rules: &Vec<Scorer>, hand: &Vec<Card>) -> (total: CheckedUsize)
    ensures
        total@ == total_points(rules@, hand@),
{
    let mut total = CheckedUsize::new(0);
    let mut index: usize = 0;
    proof {
        assert(rules@.take(0) =~= Seq::<Scorer>::empty());
    }
    while index < rules.len()
        invariant
            index <= rules.len(),
            total@ == total_points(rules@.take(index as int), hand@),
        decreases rules.len() - index,
    {
        proof {
            assert(rules@.take(index + 1).drop_last() =~= rules@.take(index as int));
        }
        total = total.add_checked(&rules[index].tally(hand));
        index += 1;
    }
    proof {
        assert(rules@.take(index as int) =~= rules@);
    }
    total
}

/// The total of a hand under the listed rules: each rule scores the hand on
/// its own, and the points are added up.
///
/// The total must fit the result, as that of any hand of up to [`MAX_HAND`]
/// cards under the rules of the show does ([`lemma_small_hand_fits`],
/// [`lemma_show_total`]). For other hands and lists see
/// [`checked_total_score`].
pub fn total_score(rules: &Vec<Scorer>, hand: &Vec<Card>) -> (total: usize)
    requires
        total_points(rules@, hand@) <= usize::MAX,
    ensures
        total == total_points(rules@, hand@),
{
    tally_total(rules, hand).unwrap()
}

/// The total of any hand under any list of rules: the total where it fits a
/// `usize`, and `None` where it does not.
pub fn checked_total_score(rules: &Vec<Scorer>, hand: &Vec<Card>) -> (total: Option<usize>)
    ensures
        total is Some <==> total_points(rules@, hand@) <= usize::MAX,
        total matches Some(fitting) ==> fitting == total_points(rules@, hand@),
{
    tally_total(rules, hand).to_option()
}

/// Under the rules of the show a hand scores its fifteens, its pairs and its
/// runs, added up.
pub proof fn lemma_show_total(rules: Seq<Scorer>, hand: Seq<Card>)
    requires
        rules.len() == 3,
        rules[0].rule == Rule::Fifteens,
        rules[1].rule == Rule::Pairs,
        rules[2].rule == Rule::Runs,
    ensures
        total_points(rules, hand) == fifteens_points(hand) + pairs_points(hand) + runs_points(
            hand,
        ),
{
    reveal_with_fuel(total_points, 4);
    assert(rules.drop_last().drop_last().drop_last().len() == 0);
}

} // verus!
