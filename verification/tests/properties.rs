use cribbage::cards::{Card, Suits, Values};
use cribbage::deck::{make_deck, make_hand};
use cribbage::fifteens::{checked_score_fifteens, score_fifteens};
use cribbage::laws::MAX_HAND;
use cribbage::pairs::{checked_score_pairs, score_pairs};
use cribbage::runs::{checked_score_runs, position_of, score_runs, Position};
use cribbage::scoring::{checked_total_score, total_score, Rule, Scorer};
use cribbage::sorting::sort_hand;
use itertools::Itertools;

fn card(suit: Suits, value: Values) -> Card {
    Card::new(suit, value)
}

fn hearts(values: &[Values]) -> Vec<Card> {
    values.iter().map(|value| card(Suits::Hearts, *value)).collect()
}

/// The hands that the tests below go through: every hand of up to four
/// cards drawn from a small stock that holds duplicates, gaps and face cards.
fn sample_hands() -> Vec<Vec<Card>> {
    let stock = vec![
        card(Suits::Hearts, Values::Ace),
        card(Suits::Spades, Values::Five),
        card(Suits::Hearts, Values::Five),
        card(Suits::Clubs, Values::Six),
        card(Suits::Hearts, Values::Seven),
        card(Suits::Diamonds, Values::Seven),
        card(Suits::Hearts, Values::Eight),
        card(Suits::Spades, Values::Ten),
        card(Suits::Hearts, Values::Jack),
        card(Suits::Clubs, Values::King),
    ];
    let mut hands = Vec::new();
    for size in 0..=4 {
        for hand in stock.iter().copied().permutations(size) {
            hands.push(hand);
        }
    }
    hands
}

#[test]
fn empty_hand_scores_nothing() {
    let hand: Vec<Card> = Vec::new();
    assert_eq!(0, score_fifteens(&hand));
    assert_eq!(0, score_pairs(&hand));
    assert_eq!(0, score_runs(&hand));
    assert_eq!(0, total_score(&Scorer::rules_for_show(), &hand));
}

#[test]
fn single_card_scores_nothing() {
    for value in Values::iterator() {
        let hand = vec![card(Suits::Clubs, *value)];
        assert_eq!(0, score_fifteens(&hand));
        assert_eq!(0, score_pairs(&hand));
        assert_eq!(0, score_runs(&hand));
    }
}

#[test]
fn five_and_ten() {
    let hand = hearts(&[Values::Five, Values::Ten]);
    assert_eq!(2, score_fifteens(&hand));
    assert_eq!(0, score_pairs(&hand));
    assert_eq!(0, score_runs(&hand));
}

#[test]
fn two_fives_and_ten() {
    let hand = vec![
        card(Suits::Hearts, Values::Five),
        card(Suits::Spades, Values::Five),
        card(Suits::Hearts, Values::Ten),
    ];
    assert_eq!(4, score_fifteens(&hand));
    assert_eq!(2, score_pairs(&hand));
    assert_eq!(0, score_runs(&hand));
}

#[test]
fn five_and_three_tens() {
    let hand = vec![
        card(Suits::Hearts, Values::Five),
        card(Suits::Hearts, Values::Ten),
        card(Suits::Spades, Values::Ten),
        card(Suits::Clubs, Values::Ten),
    ];
    assert_eq!(6, score_fifteens(&hand));
    assert_eq!(6, score_pairs(&hand));
    assert_eq!(0, score_runs(&hand));
}

#[test]
fn four_and_jack_make_fourteen() {
    let hand = hearts(&[Values::Four, Values::Jack]);
    assert_eq!(0, score_fifteens(&hand));
}

#[test]
fn three_four_five() {
    let hand = hearts(&[Values::Three, Values::Four, Values::Five]);
    assert_eq!(3, score_runs(&hand));
    assert_eq!(0, score_fifteens(&hand));
    assert_eq!(0, score_pairs(&hand));
}

#[test]
fn double_run_with_a_pair() {
    let hand = vec![
        card(Suits::Hearts, Values::Three),
        card(Suits::Spades, Values::Three),
        card(Suits::Hearts, Values::Four),
        card(Suits::Hearts, Values::Five),
    ];
    assert_eq!(6, score_runs(&hand));
    assert_eq!(2, score_pairs(&hand));
}

#[test]
fn two_duplicates_in_one_run() {
    let hand = vec![
        card(Suits::Hearts, Values::Three),
        card(Suits::Spades, Values::Three),
        card(Suits::Hearts, Values::Four),
        card(Suits::Hearts, Values::Five),
        card(Suits::Hearts, Values::Five),
    ];
    assert_eq!(12, score_runs(&hand));
}

#[test]
fn jack_and_king() {
    let hand = vec![card(Suits::Hearts, Values::Jack), card(Suits::Spades, Values::King)];
    assert_eq!(0, score_pairs(&hand));
    assert_eq!(0, score_fifteens(&hand));
    assert_eq!(0, score_runs(&hand));
}

#[test]
fn fifteen_aces_add_up() {
    let hand = hearts(&[Values::Ace; 16]);
    assert_eq!(2 * 16, score_fifteens(&hand));
    assert_eq!(16 * 15, score_pairs(&hand));
}

#[test]
fn four_of_a_kind_holds_six_pairs() {
    let hand = vec![
        card(Suits::Diamonds, Values::Nine),
        card(Suits::Hearts, Values::Nine),
        card(Suits::Clubs, Values::Nine),
        card(Suits::Spades, Values::Nine),
    ];
    assert_eq!(12, score_pairs(&hand));
}

#[test]
fn four_equal_cards_score_no_run() {
    let hand = hearts(&[Values::Five, Values::Five, Values::Five, Values::Five, Values::Six]);
    assert_eq!(0, score_runs(&hand));
    assert_eq!(12, score_pairs(&hand));
}

#[test]
fn run_of_five() {
    let hand = hearts(&[Values::Nine, Values::King, Values::Jack, Values::Ten, Values::Queen]);
    assert_eq!(5, score_runs(&hand));
}

#[test]
fn gap_in_the_middle_shortens_the_run() {
    // Sorted: 3 8 9 J Q. The gaps are 5 1 2 1; the 2 stands in the middle.
    let hand = hearts(&[Values::Three, Values::Eight, Values::Nine, Values::Queen, Values::Jack]);
    assert_eq!(0, score_runs(&hand));
    // Sorted: 5 8 9 10. The wide gap comes first and takes nothing away.
    let hand = hearts(&[Values::Five, Values::Eight, Values::Nine, Values::Ten]);
    assert_eq!(3, score_runs(&hand));
    // Sorted: 8 9 10 K. The wide gap comes last.
    let hand = hearts(&[Values::King, Values::Eight, Values::Nine, Values::Ten]);
    assert_eq!(3, score_runs(&hand));
}

#[test]
fn many_duplicates_do_not_stop_the_scoring() {
    // Four gaps of zero and three of one: a run of four, doubled four times.
    let hand = hearts(&[
        Values::Two,
        Values::Two,
        Values::Two,
        Values::Three,
        Values::Three,
        Values::Four,
        Values::Five,
        Values::Five,
    ]);
    assert_eq!(64, score_runs(&hand));
}

#[test]
fn fifteens_are_even() {
    for hand in sample_hands() {
        assert_eq!(0, score_fifteens(&hand) % 2);
    }
}

#[test]
fn fifteens_count_the_subsets_that_add_up() {
    for hand in sample_hands() {
        let expected = hand
            .iter()
            .powerset()
            .filter(|subset| subset.iter().map(|card| card.to_cribbage_value()).sum::<usize>() == 15)
            .count()
            * 2;
        assert_eq!(expected, score_fifteens(&hand));
    }
}

#[test]
fn pairs_count_the_combinations_of_equal_rank() {
    for hand in sample_hands() {
        let expected =
            hand.iter().combinations(2).filter(|pair| pair[0].value == pair[1].value).count() * 2;
        assert_eq!(expected, score_pairs(&hand));
    }
}

#[test]
fn pairs_go_by_rank_groups() {
    for hand in sample_hands() {
        let mut expected = 0;
        for value in Values::iterator() {
            let size = hand.iter().filter(|card| card.value == *value).count();
            expected += size * size.saturating_sub(1);
        }
        assert_eq!(expected, score_pairs(&hand));
    }
}

#[test]
fn order_of_cards_does_not_matter() {
    let hand = vec![
        card(Suits::Hearts, Values::Seven),
        card(Suits::Hearts, Values::Eight),
        card(Suits::Spades, Values::Eight),
        card(Suits::Spades, Values::Nine),
        card(Suits::Hearts, Values::Jack),
    ];
    for shuffled in hand.iter().copied().permutations(hand.len()) {
        assert_eq!(4, score_fifteens(&shuffled));
        assert_eq!(2, score_pairs(&shuffled));
        assert_eq!(6, score_runs(&shuffled));
        assert_eq!(12, total_score(&Scorer::rules_for_show(), &shuffled));
    }
}

#[test]
fn scoring_twice_gives_the_same() {
    for hand in sample_hands() {
        assert_eq!(score_fifteens(&hand), score_fifteens(&hand));
        assert_eq!(score_pairs(&hand), score_pairs(&hand));
        assert_eq!(score_runs(&hand), score_runs(&hand));
    }
}

#[test]
fn scoring_leaves_the_hand_alone() {
    let hand = hearts(&[Values::Nine, Values::Three, Values::Five, Values::Four]);
    let before = hand.clone();
    score_fifteens(&hand);
    score_pairs(&hand);
    score_runs(&hand);
    assert_eq!(before, hand);
}

#[test]
fn rules_for_show_are_three_in_order() {
    let rules = Scorer::rules_for_show();
    assert_eq!(3, rules.len());
    assert_eq!("15", rules[0].name);
    assert_eq!(Rule::Fifteens, rules[0].rule);
    assert_eq!("Pair", rules[1].name);
    assert_eq!(Rule::Pairs, rules[1].rule);
    assert_eq!("Run", rules[2].name);
    assert_eq!(Rule::Runs, rules[2].rule);
}

#[test]
fn total_is_the_sum_of_the_rules() {
    for hand in sample_hands() {
        let rules = Scorer::rules_for_show();
        let sum: usize = rules.iter().map(|rule| rule.evaluate(&hand)).sum();
        assert_eq!(sum, total_score(&rules, &hand));
        assert_eq!(score_fifteens(&hand) + score_pairs(&hand) + score_runs(&hand), sum);
    }
}

#[test]
fn total_does_not_depend_on_the_order_of_rules() {
    let hand = hearts(&[Values::Seven, Values::Eight, Values::Eight, Values::Nine]);
    let rules = vec![Scorer::solver_run(), Scorer::solver_15(), Scorer::solver_pair()];
    assert_eq!(total_score(&Scorer::rules_for_show(), &hand), total_score(&rules, &hand));
    assert_eq!(0, total_score(&Vec::new(), &hand));
}

#[test]
fn full_hand_limit_scores() {
    // As many fives as a hand may hold: every three of them add up.
    let hand = hearts(&[Values::Five; MAX_HAND]);
    assert_eq!(2 * 2024, score_fifteens(&hand));
    assert_eq!(24 * 23, score_pairs(&hand));
    assert_eq!(0, score_runs(&hand));
}

#[test]
fn sorted_hand_goes_by_rank_then_suit() {
    let hand = vec![
        card(Suits::Spades, Values::King),
        card(Suits::Spades, Values::Two),
        card(Suits::Diamonds, Values::King),
        card(Suits::Hearts, Values::Ace),
        card(Suits::Clubs, Values::Two),
        card(Suits::Hearts, Values::Two),
    ];
    let sorted = sort_hand(&hand);
    assert_eq!(
        vec![
            card(Suits::Hearts, Values::Ace),
            card(Suits::Hearts, Values::Two),
            card(Suits::Clubs, Values::Two),
            card(Suits::Spades, Values::Two),
            card(Suits::Diamonds, Values::King),
            card(Suits::Spades, Values::King),
        ],
        sorted
    );
    assert_eq!(6, hand.len());
    assert!(sorted[1].sorts_before(&sorted[2]));
    assert!(!sorted[2].sorts_before(&sorted[1]));
    assert!(sorted[0].sorts_before(&sorted[0]));
}

#[test]
fn positions_are_those_of_with_position() {
    for count in 1..6 {
        let expected: Vec<itertools::Position> =
            (0..count).with_position().map(|(position, _)| position).collect();
        for index in 0..count {
            let same = match (position_of(index, count), expected[index]) {
                (Position::First, itertools::Position::First) => true,
                (Position::Middle, itertools::Position::Middle) => true,
                (Position::Last, itertools::Position::Last) => true,
                (Position::Only, itertools::Position::Only) => true,
                _ => false,
            };
            assert!(same);
        }
    }
}

#[test]
fn ordinals_and_cribbage_values() {
    let ordinals: Vec<u8> = Values::iterator().map(|value| value.ordinal()).collect();
    assert_eq!(vec![1, 2, 3, 4, 5, 6, 7, 8, 9, 10, 11, 12, 13], ordinals);
    let values: Vec<u8> = Values::iterator().map(|value| value.cribbage_value()).collect();
    assert_eq!(vec![1, 2, 3, 4, 5, 6, 7, 8, 9, 10, 10, 10, 10], values);
    let queen = card(Suits::Clubs, Values::Queen);
    assert_eq!(12, queen.to_rank_value());
    assert_eq!(10, queen.to_cribbage_value());
    let suits: Vec<u8> = Suits::iterator().map(|suit| suit.order()).collect();
    assert_eq!(vec![0, 1, 2, 3], suits);
}

#[test]
fn suits_and_values_in_deck_order() {
    let suits: Vec<Suits> = Suits::iterator().copied().collect();
    assert_eq!(vec![Suits::Diamonds, Suits::Hearts, Suits::Clubs, Suits::Spades], suits);
    assert_eq!(13, Values::iterator().count());
    assert_eq!(Some(&Values::Ace), Values::iterator().next());
    assert_eq!(Some(&Values::King), Values::iterator().last());
}

#[test]
fn fresh_deck_holds_each_card_once() {
    let deck = make_deck();
    assert_eq!(52, deck.len());
    assert_eq!(card(Suits::Diamonds, Values::Ace), deck[0]);
    assert_eq!(card(Suits::Diamonds, Values::King), deck[12]);
    assert_eq!(card(Suits::Hearts, Values::Ace), deck[13]);
    assert_eq!(card(Suits::Spades, Values::King), deck[51]);
    assert_eq!(52, deck.iter().unique().count());
}

#[test]
fn hand_is_cut_off_the_end_of_the_deck() {
    let mut deck = make_deck();
    let hand = make_hand(&mut deck, 50);
    assert_eq!(50, deck.len());
    assert_eq!(vec![card(Suits::Spades, Values::Queen), card(Suits::Spades, Values::King)], hand);
    let rest = make_hand(&mut deck, 50);
    assert!(rest.is_empty());
    assert_eq!(50, deck.len());
    let all = make_hand(&mut deck, 0);
    assert_eq!(50, all.len());
    assert!(deck.is_empty());
}

#[test]
fn checked_scores_are_the_scores_where_they_fit() {
    for hand in sample_hands() {
        assert_eq!(Some(score_fifteens(&hand)), checked_score_fifteens(&hand));
        assert_eq!(Some(score_pairs(&hand)), checked_score_pairs(&hand));
        assert_eq!(Some(score_runs(&hand)), checked_score_runs(&hand));
        let rules = Scorer::rules_for_show();
        for rule in rules.iter() {
            assert_eq!(Some(rule.evaluate(&hand)), rule.checked_evaluate(&hand));
        }
        assert_eq!(Some(total_score(&rules, &hand)), checked_total_score(&rules, &hand));
    }
}

#[test]
fn run_that_outgrows_the_integers_is_refused() {
    // A run of three behind as many duplicates as a usize has bits.
    let mut hand = vec![card(Suits::Hearts, Values::Three), card(Suits::Hearts, Values::Four)];
    for _ in 0..=usize::BITS {
        hand.push(card(Suits::Hearts, Values::Two));
    }
    assert_eq!(None, checked_score_runs(&hand));
    assert_eq!(None, Scorer::solver_run().checked_evaluate(&hand));
    assert_eq!(None, checked_total_score(&vec![Scorer::solver_run()], &hand));
    assert_eq!(Some(0), checked_total_score(&Vec::new(), &hand));
    // One duplicate fewer fits, and with it the largest run that does.
    hand.pop();
    hand.pop();
    assert_eq!(Some(3 << (usize::BITS - 2)), checked_score_runs(&hand));
    // Without the run the duplicates count for nothing.
    hand.remove(0);
    assert_eq!(Some(0), checked_score_runs(&hand));
}

#[test]
fn total_that_outgrows_the_integers_is_refused() {
    let mut hand = vec![card(Suits::Hearts, Values::Three), card(Suits::Hearts, Values::Four)];
    for _ in 0..usize::BITS - 1 {
        hand.push(card(Suits::Hearts, Values::Two));
    }
    let once = vec![Scorer::solver_run()];
    let twice = vec![Scorer::solver_run(), Scorer::solver_run()];
    assert_eq!(Some(3 << (usize::BITS - 2)), checked_total_score(&once, &hand));
    assert_eq!(None, checked_total_score(&twice, &hand));
}
