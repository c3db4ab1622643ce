use eris::engine::evaluate;
use eris::error::ParseRollError;
use eris::scan::Tokenizer;
use eris::source::DiceSource;
use eris::term::{Keep, KeepDirection, Operator, Term};

fn tokenizer() -> Tokenizer {
    Tokenizer::new().expect("the grammar compiles")
}

#[test]
fn grammar_compiles() {
    assert!(Tokenizer::new().is_some());
}

#[test]
fn empty_text_is_empty_expression() {
    let t = tokenizer();
    let mut source = DiceSource::seeded(1);
    assert_eq!(evaluate(&t, &mut source, ""), Err(ParseRollError::EmptyExpression));
}

#[test]
fn text_without_tokens_is_empty_expression() {
    let t = tokenizer();
    let mut source = DiceSource::seeded(1);
    assert_eq!(evaluate(&t, &mut source, "hello"), Err(ParseRollError::EmptyExpression));
}

#[test]
fn division_by_zero_is_refused() {
    let t = tokenizer();
    let mut source = DiceSource::seeded(1);
    assert_eq!(evaluate(&t, &mut source, "5/0"), Err(ParseRollError::DivisionByZero));
}

#[test]
fn negative_exponent_is_refused() {
    let t = tokenizer();
    let mut source = DiceSource::seeded(1);
    assert_eq!(evaluate(&t, &mut source, "2^-1"), Err(ParseRollError::InvalidExponent));
}

#[test]
fn tokens_are_cut_in_order() {
    let t = tokenizer();
    assert_eq!(t.tokens("4d6b3 vs 12"), vec!["4d6b3".to_string(), "vs 12".to_string()]);
    assert_eq!(
        t.tokens("r3 2d6+1"),
        vec!["r3".to_string(), "2d6".to_string(), "+".to_string(), "1".to_string()]
    );
}

#[test]
fn parse_builds_each_shape() {
    let t = tokenizer();
    assert_eq!(
        t.parse("4d6b3 vs Broadsword-14 r2 x 5"),
        Ok(vec![
            Term::Dice {
                count: 4,
                sides: 6,
                keep: Some(Keep { direction: KeepDirection::Best, amount: 3 })
            },
            Term::Versus { target: 14, tag: Some("Broadsword".to_string()) },
            Term::Repeat(2),
            Term::Operator(Operator::Mul),
            Term::Number(5),
        ])
    );
}

#[test]
fn an_integer_field_out_of_range_is_refused() {
    let t = tokenizer();
    let mut source = DiceSource::seeded(1);
    assert_eq!(
        evaluate(&t, &mut source, "3d6 + 99999999999999999999"),
        Err(ParseRollError::IntegerFormat("99999999999999999999".to_string()))
    );
}

#[test]
fn remainder_by_zero_is_refused() {
    let t = tokenizer();
    let mut source = DiceSource::seeded(1);
    assert_eq!(evaluate(&t, &mut source, "3d6 % 0"), Err(ParseRollError::DivisionByZero));
}

#[test]
fn numbers_alone_get_three_dice_in_front() {
    let t = tokenizer();
    let mut source = DiceSource::seeded(4);
    let line = evaluate(&t, &mut source, "+2").unwrap();
    assert!(line.starts_with("3d6["));
    assert!(line.contains("] + 2 (Total: "));
}

#[test]
fn arithmetic_on_numbers_is_exact() {
    let t = tokenizer();
    let mut source = DiceSource::seeded(4);
    assert_eq!(evaluate(&t, &mut source, "0d6+2*5-1"), Ok("0d6 + 2 × 5 - 1 (Total: 9)".to_string()));
    assert_eq!(evaluate(&t, &mut source, "0d6+7/2"), Ok("0d6 + 7 / 2 (Total: 3)".to_string()));
    assert_eq!(evaluate(&t, &mut source, "0d6+2^10"), Ok("0d6 + 2 ^ 10 (Total: 1024)".to_string()));
    assert_eq!(evaluate(&t, &mut source, "0d6+7%4"), Ok("0d6 + 7 % 4 (Total: 3)".to_string()));
    assert_eq!(evaluate(&t, &mut source, "0d6-5*-2"), Ok("0d6 - 5 × -2 (Total: 10)".to_string()));
}

#[test]
fn one_sided_dice_are_certain() {
    let t = tokenizer();
    let mut source = DiceSource::seeded(4);
    assert_eq!(
        evaluate(&t, &mut source, "4d1b3 + 2 vs 4"),
        Ok("4d1b3[1, 1, 1, 1] + 2 (Total:  5 vs 4: Success by 1)".to_string())
    );
    assert_eq!(
        evaluate(&t, &mut source, "3d1 vs Stealth-12"),
        Ok("3d1[1, 1, 1] (Total:  3 vs Stealth 12: Failure by 9)".to_string())
    );
}

#[test]
fn a_repeat_gives_one_line_per_evaluation() {
    let t = tokenizer();
    let mut source = DiceSource::seeded(8);
    let text = evaluate(&t, &mut source, "r3 2d6+1").unwrap();
    let lines: Vec<&str> = text.split('\n').collect();
    assert_eq!(lines.len(), 3);
    for line in lines {
        assert!(line.starts_with("2d6["));
        assert!(line.contains("] + 1 (Total: "));
    }
}

#[test]
fn three_dice_versus_a_target_are_resolved() {
    let t = tokenizer();
    for seed in 0..40u64 {
        let mut source = DiceSource::seeded(seed);
        let line = evaluate(&t, &mut source, "3d6 vs 12").unwrap();
        assert!(line.starts_with("3d6["));
        assert!(line.contains(" vs 12: "));
        assert!(
            line.contains("Success") || line.contains("Failure"),
            "no result in {}",
            line
        );
    }
}

#[test]
fn the_same_seed_gives_the_same_text() {
    let t = tokenizer();
    let mut a = DiceSource::seeded(2024);
    let mut b = DiceSource::seeded(2024);
    let first = evaluate(&t, &mut a, "r4 4d6b3 + 1d20 vs 15").unwrap();
    let second = evaluate(&t, &mut b, "r4 4d6b3 + 1d20 vs 15").unwrap();
    assert_eq!(first, second);
}

#[test]
fn the_thread_source_serves_an_evaluation() {
    let t = tokenizer();
    let mut source = DiceSource::thread();
    let line = evaluate(&t, &mut source, "1d20").unwrap();
    assert!(line.starts_with("1d20["));
}

#[test]
fn a_bare_versus_clause_rolls_three_dice_against_it() {
    let t = tokenizer();
    let mut source = DiceSource::seeded(12);
    let line = evaluate(&t, &mut source, "vs Broadsword-14").unwrap();
    assert!(line.starts_with("3d6["));
    assert!(line.contains(" vs Broadsword 14: "));
}

#[test]
fn a_text_that_does_not_parse_leaves_the_source_alone() {
    let t = tokenizer();
    let mut source = DiceSource::seeded(51);
    assert!(evaluate(&t, &mut source, "hello").is_err());
    assert!(evaluate(&t, &mut source, "1d0").is_err());
    let mut again = DiceSource::seeded(51);
    assert_eq!(source.draw(1000), again.draw(1000));
}

#[test]
fn an_evaluation_moves_a_seeded_source_on() {
    let t = tokenizer();
    let mut source = DiceSource::seeded(61);
    let first = evaluate(&t, &mut source, "6d1000").unwrap();
    let second = evaluate(&t, &mut source, "6d1000").unwrap();
    assert_ne!(first, second);
    let mut again = DiceSource::seeded(61);
    assert_eq!(evaluate(&t, &mut again, "6d1000").unwrap(), first);
    assert_eq!(evaluate(&t, &mut again, "6d1000").unwrap(), second);
}
