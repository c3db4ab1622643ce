use eris::dice::{sum_range, RolledTerm};
use eris::error::ParseRollError;
use eris::roll::{fold_total, Check, DiceRoll, Roll};
use eris::skill::GameSystem;
use eris::source::DiceSource;
use eris::term::{Keep, KeepDirection, Operator, Term};

fn dice(count: usize, sides: i64) -> Term {
    Term::Dice { count, sides, keep: None }
}

fn kept(count: usize, sides: i64, direction: KeepDirection, amount: usize) -> Term {
    Term::Dice { count, sides, keep: Some(Keep { direction, amount }) }
}

fn rolled(term: Term, values: &[i64]) -> RolledTerm {
    RolledTerm { term, values: values.to_vec() }
}

#[test]
fn every_die_shows_a_face_and_the_term_sums_them() {
    for seed in 0..50u64 {
        let mut source = DiceSource::seeded(seed);
        let realized = dice(7, 6).with_rolls(&mut source);
        assert_eq!(realized.values.len(), 7);
        assert!(realized.values.iter().all(|v| 1 <= *v && *v <= 6));
        assert_eq!(realized.contribution(), realized.values.iter().sum::<i64>());
    }
}

#[test]
fn the_thread_source_rolls_in_range() {
    let mut source = DiceSource::thread();
    for _ in 0..200 {
        let v = source.draw(20);
        assert!(1 <= v && v <= 20);
    }
    assert_eq!(source.draw(1), 1);
}

#[test]
fn a_seed_fixes_the_rolls() {
    let mut a = DiceSource::seeded(99);
    let mut b = DiceSource::seeded(99);
    let first: Vec<i64> = (0..40).map(|_| a.draw(100)).collect();
    let second: Vec<i64> = (0..40).map(|_| b.draw(100)).collect();
    assert_eq!(first, second);
    assert!(first.iter().any(|v| *v != first[0]));
}

#[test]
fn a_number_is_its_own_value_and_other_terms_have_none() {
    let mut source = DiceSource::seeded(3);
    assert_eq!(Term::Number(-4).with_rolls(&mut source).values, vec![-4]);
    assert!(Term::Operator(Operator::Add).with_rolls(&mut source).values.is_empty());
    assert_eq!(rolled(Term::Number(9), &[9]).contribution(), 9);
    assert_eq!(rolled(Term::Operator(Operator::Mul), &[]).contribution(), 0);
}

#[test]
fn no_dice_sum_to_nothing() {
    let mut source = DiceSource::seeded(3);
    let realized = dice(0, 6).with_rolls(&mut source);
    assert!(realized.values.is_empty());
    assert_eq!(realized.contribution(), 0);
}

#[test]
fn keep_best_sums_the_largest() {
    let term = kept(4, 6, KeepDirection::Best, 3);
    assert_eq!(rolled(term, &[3, 1, 6, 4]).contribution(), 13);
    let two = kept(4, 6, KeepDirection::Best, 2);
    assert_eq!(rolled(two, &[1, 6, 3, 4]).contribution(), 10);
}

#[test]
fn keep_worst_sums_the_smallest() {
    let term = kept(4, 6, KeepDirection::Worst, 3);
    assert_eq!(rolled(term, &[3, 1, 6, 4]).contribution(), 8);
    let one = kept(2, 20, KeepDirection::Worst, 1);
    assert_eq!(rolled(one, &[17, 5]).contribution(), 5);
}

#[test]
fn keep_of_more_than_there_are_keeps_all() {
    let term = kept(4, 6, KeepDirection::Best, 9);
    assert_eq!(rolled(term, &[3, 1, 6, 4]).contribution(), 14);
    let none = kept(4, 6, KeepDirection::Worst, 0);
    assert_eq!(rolled(none, &[3, 1, 6, 4]).contribution(), 0);
}

#[test]
fn four_dice_keep_three_rolled() {
    for seed in 0..50u64 {
        let mut source = DiceSource::seeded(seed);
        let realized = kept(4, 6, KeepDirection::Best, 3).with_rolls(&mut source);
        let mut values = realized.values.clone();
        values.sort();
        assert_eq!(values.len(), 4);
        assert_eq!(realized.contribution(), values[1] + values[2] + values[3]);
    }
}

#[test]
fn a_range_of_values_is_summed() {
    assert_eq!(sum_range(&vec![1, 2, 3, 4, 5], 1, 4), 9);
    assert_eq!(sum_range(&vec![1, 2, 3], 2, 2), 0);
    assert_eq!(sum_range(&vec![i64::MAX, 1], 0, 2), i64::MIN);
}

#[test]
fn terms_fold_left_to_right_without_precedence() {
    let line = vec![
        rolled(Term::Number(2), &[2]),
        rolled(Term::Operator(Operator::Add), &[]),
        rolled(Term::Number(3), &[3]),
        rolled(Term::Operator(Operator::Mul), &[]),
        rolled(Term::Number(4), &[4]),
    ];
    assert_eq!(fold_total(&line), Ok(20));
}

#[test]
fn the_first_contribution_is_added_and_an_operator_stays_in_force() {
    let line = vec![
        rolled(dice(2, 6), &[5, 6]),
        rolled(Term::Operator(Operator::Sub), &[]),
        rolled(Term::Number(1), &[1]),
        rolled(Term::Number(2), &[2]),
    ];
    assert_eq!(fold_total(&line), Ok(8));
    assert_eq!(fold_total(&Vec::new()), Ok(0));
}

#[test]
fn the_last_of_several_operators_applies() {
    let line = vec![
        rolled(Term::Number(6), &[6]),
        rolled(Term::Operator(Operator::Add), &[]),
        rolled(Term::Operator(Operator::Div), &[]),
        rolled(Term::Number(3), &[3]),
    ];
    assert_eq!(fold_total(&line), Ok(2));
}

#[test]
fn a_failure_ends_the_fold() {
    let by_zero = vec![
        rolled(Term::Number(5), &[5]),
        rolled(Term::Operator(Operator::Rem), &[]),
        rolled(Term::Number(0), &[0]),
        rolled(Term::Operator(Operator::Pow), &[]),
        rolled(Term::Number(-1), &[-1]),
    ];
    assert_eq!(fold_total(&by_zero), Err(ParseRollError::DivisionByZero));
    let negative = vec![
        rolled(Term::Number(5), &[5]),
        rolled(Term::Operator(Operator::Pow), &[]),
        rolled(Term::Number(-2), &[-2]),
        rolled(Term::Operator(Operator::Div), &[]),
        rolled(Term::Number(0), &[0]),
    ];
    assert_eq!(fold_total(&negative), Err(ParseRollError::InvalidExponent));
}

#[test]
fn a_roll_of_given_values_carries_its_check_unchanged() {
    let check = Check { target: 12, tag: Some("Climbing".to_string()), system: GameSystem::Gurps };
    let line = vec![rolled(dice(3, 6), &[2, 3, 4])];
    let roll = Roll::from_rolled(line.clone(), Some(check.clone())).unwrap();
    assert_eq!(roll.total, 9);
    assert_eq!(roll.terms, line);
    assert_eq!(roll.versus, Some(check));
}

#[test]
fn a_roll_realizes_arithmetic_terms_only() {
    let terms = vec![
        Term::Repeat(4),
        dice(2, 6),
        Term::Operator(Operator::Add),
        Term::Versus { target: 9, tag: None },
        Term::Number(1),
        Term::Versus { target: 3, tag: Some("late".to_string()) },
    ];
    let mut source = DiceSource::seeded(5);
    let roll = Roll::new(&terms, &mut source).unwrap();
    assert_eq!(roll.terms.len(), 3);
    assert_eq!(roll.terms[0].term, dice(2, 6));
    assert_eq!(roll.terms[2].values, vec![1]);
    assert_eq!(roll.total, roll.terms[0].values.iter().sum::<i64>() + 1);
    assert_eq!(roll.versus, Some(Check { target: 9, tag: None, system: GameSystem::Plain }));
}

#[test]
fn a_repeat_of_three_gives_three_rolls() {
    let terms =
        vec![Term::Repeat(3), dice(2, 6), Term::Operator(Operator::Add), Term::Number(1)];
    let mut source = DiceSource::seeded(11);
    let set = DiceRoll::new(terms, &mut source).unwrap();
    assert_eq!(set.rolls.len(), 3);
    for roll in &set.rolls {
        let values = &roll.terms[0].values;
        assert_eq!(values.len(), 2);
        assert!(values.iter().all(|v| 1 <= *v && *v <= 6));
        assert_eq!(roll.total, values[0] + values[1] + 1);
        assert_eq!(roll.versus, None);
    }
}

#[test]
fn without_a_repeat_there_is_one_roll() {
    let mut source = DiceSource::seeded(11);
    let set = DiceRoll::new(vec![dice(1, 20)], &mut source).unwrap();
    assert_eq!(set.rolls.len(), 1);
}

#[test]
fn three_six_sided_dice_are_put_in_front_where_none_are_named() {
    let terms = vec![Term::Operator(Operator::Mul), Term::Number(2)];
    let mut source = DiceSource::seeded(2);
    let set = DiceRoll::new(terms, &mut source).unwrap();
    let roll = &set.rolls[0];
    assert_eq!(roll.terms[0].term, dice(3, 6));
    assert_eq!(roll.terms[0].values.len(), 3);
    assert_eq!(roll.total, roll.terms[0].values.iter().sum::<i64>() * 2);
}

#[test]
fn a_failing_evaluation_fails_the_set() {
    let terms = vec![dice(1, 6), Term::Operator(Operator::Div), Term::Number(0)];
    let mut source = DiceSource::seeded(2);
    assert_eq!(DiceRoll::new(terms, &mut source), Err(ParseRollError::DivisionByZero));
}

#[test]
fn different_seeds_roll_differently() {
    let mut a = DiceSource::seeded(1);
    let mut b = DiceSource::seeded(2);
    let first: Vec<i64> = (0..40).map(|_| a.draw(100)).collect();
    let second: Vec<i64> = (0..40).map(|_| b.draw(100)).collect();
    assert_ne!(first, second);
}

#[test]
fn a_seeded_source_moves_on_with_every_roll() {
    let mut a = DiceSource::seeded(7);
    let mut b = DiceSource::seeded(7);
    let skipped = a.draw(6);
    assert!(1 <= skipped && skipped <= 6);
    let after_one: Vec<i64> = (0..40).map(|_| a.draw(1000)).collect();
    let from_start: Vec<i64> = (0..40).map(|_| b.draw(1000)).collect();
    assert_ne!(after_one, from_start);
}

#[test]
fn each_evaluation_draws_afresh_from_the_source() {
    let terms =
        vec![Term::Repeat(3), dice(2, 6), Term::Operator(Operator::Add), Term::Number(1)];
    let mut source = DiceSource::seeded(11);
    let set = DiceRoll::new(terms, &mut source).unwrap();
    let mut again = DiceSource::seeded(11);
    let draws: Vec<i64> = (0..6).map(|_| again.draw(6)).collect();
    assert_eq!(set.rolls.len(), 3);
    for (i, roll) in set.rolls.iter().enumerate() {
        assert_eq!(roll.terms[0].values, vec![draws[2 * i], draws[2 * i + 1]]);
        assert_eq!(roll.total, draws[2 * i] + draws[2 * i + 1] + 1);
    }
    assert_eq!(source.draw(1000), again.draw(1000));
}

#[test]
fn dice_are_rolled_in_the_order_of_the_terms() {
    let terms = vec![dice(1, 20), Term::Number(5), dice(2, 4), Term::Versus { target: 3, tag: None }];
    let mut source = DiceSource::seeded(21);
    let roll = Roll::new(&terms, &mut source).unwrap();
    let mut again = DiceSource::seeded(21);
    let first = again.draw(20);
    let second = again.draw(4);
    let third = again.draw(4);
    assert_eq!(roll.terms[0].values, vec![first]);
    assert_eq!(roll.terms[1].values, vec![5]);
    assert_eq!(roll.terms[2].values, vec![second, third]);
    assert_eq!(source.draw(1000), again.draw(1000));
}

#[test]
fn a_failed_evaluation_asks_the_source_no_further() {
    let terms = vec![Term::Repeat(3), dice(1, 6), Term::Operator(Operator::Div), Term::Number(0)];
    let mut source = DiceSource::seeded(31);
    assert_eq!(DiceRoll::new(terms, &mut source), Err(ParseRollError::DivisionByZero));
    let mut again = DiceSource::seeded(31);
    let _rolled_once = again.draw(6);
    assert_eq!(source.draw(1000), again.draw(1000));
}

#[test]
fn numbers_and_operators_ask_nothing_of_the_source() {
    let mut source = DiceSource::seeded(41);
    let _ = Term::Number(3).with_rolls(&mut source);
    let _ = Term::Operator(Operator::Add).with_rolls(&mut source);
    let _ = dice(0, 6).with_rolls(&mut source);
    let mut again = DiceSource::seeded(41);
    assert_eq!(source.draw(1000), again.draw(1000));
}
