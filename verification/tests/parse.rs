use eris::error;
use eris::error::ParseRollError;
use eris::expression::fold_signs;
use eris::parse::{
    build_dice, build_number, build_repeat, build_term, build_versus, has_versus_shape,
    operator_for, position,
};
use eris::scan::Tokenizer;
use eris::skill::{infer_system, GameSystem};
use eris::term::{Keep, KeepDirection, Operator, Term};

fn tokenizer() -> Tokenizer {
    Tokenizer::new().expect("the grammar compiles")
}

fn chars(s: &str) -> Vec<char> {
    s.chars().collect()
}

fn texts(tokens: &[&str]) -> Vec<String> {
    tokens.iter().map(|t| t.to_string()).collect()
}

fn dice(count: usize, sides: i64) -> Term {
    Term::Dice { count, sides, keep: None }
}

fn bad(field: &str) -> ParseRollError {
    ParseRollError::IntegerFormat(field.to_string())
}

#[test]
fn dice_tokens_are_read_with_their_defaults() {
    assert_eq!(build_dice(&chars("4d6")), Ok(dice(4, 6)));
    assert_eq!(build_dice(&chars("d")), Ok(dice(3, 6)));
    assert_eq!(build_dice(&chars("2d")), Ok(dice(2, 6)));
    assert_eq!(build_dice(&chars("d20")), Ok(dice(3, 20)));
    assert_eq!(build_dice(&chars("0d6")), Ok(dice(0, 6)));
}

#[test]
fn keep_modifiers_are_read() {
    assert_eq!(
        build_dice(&chars("4d6b3")),
        Ok(Term::Dice {
            count: 4,
            sides: 6,
            keep: Some(Keep { direction: KeepDirection::Best, amount: 3 })
        })
    );
    assert_eq!(
        build_dice(&chars("2d20w1")),
        Ok(Term::Dice {
            count: 2,
            sides: 20,
            keep: Some(Keep { direction: KeepDirection::Worst, amount: 1 })
        })
    );
    assert_eq!(
        build_dice(&chars("db0")),
        Ok(Term::Dice {
            count: 3,
            sides: 6,
            keep: Some(Keep { direction: KeepDirection::Best, amount: 0 })
        })
    );
}

#[test]
fn a_dice_field_that_is_no_number_is_named() {
    assert_eq!(build_dice(&chars("ad6")), Err(bad("a")));
    assert_eq!(build_dice(&chars("4dx")), Err(bad("x")));
    assert_eq!(build_dice(&chars("4d6b")), Err(bad("")));
    assert_eq!(build_dice(&chars("4d6b-1")), Err(bad("-1")));
    assert_eq!(build_dice(&chars("99999999999999999999d6")), Err(bad("99999999999999999999")));
    assert_eq!(build_dice(&chars("1d9223372036854775808")), Err(bad("9223372036854775808")));
    assert_eq!(build_dice(&chars("ad0b")), Err(bad("a")));
}

#[test]
fn a_die_without_sides_is_refused() {
    assert_eq!(build_dice(&chars("1d0")), Err(bad("0")));
    assert_eq!(build_dice(&chars("1d00b2")), Err(bad("00")));
}

#[test]
fn repeat_tokens_are_read() {
    assert_eq!(build_repeat(&chars("r3")), Ok(Term::Repeat(3)));
    assert_eq!(build_repeat(&chars("repeat12")), Ok(Term::Repeat(12)));
    assert_eq!(build_repeat(&chars("r0")), Err(bad("0")));
    assert_eq!(build_repeat(&chars("r")), Err(bad("")));
    assert_eq!(build_repeat(&chars("r3x")), Err(bad("3x")));
}

#[test]
fn versus_clauses_are_built_from_tag_and_target() {
    assert_eq!(
        build_versus(Some("  Broadsword ".to_string()), Some("14".to_string())),
        Ok(Term::Versus { target: 14, tag: Some("Broadsword".to_string()) })
    );
    assert_eq!(
        build_versus(None, Some("-3".to_string())),
        Ok(Term::Versus { target: -3, tag: None })
    );
    assert_eq!(
        build_versus(Some(" \t".to_string()), Some("7".to_string())),
        Ok(Term::Versus { target: 7, tag: None })
    );
}

#[test]
fn a_versus_clause_needs_a_target_that_is_a_number() {
    assert_eq!(build_versus(Some("x".to_string()), None), Err(ParseRollError::EmptyExpression));
    assert_eq!(
        build_versus(None, Some("99999999999999999999".to_string())),
        Err(bad("99999999999999999999"))
    );
    assert_eq!(build_versus(None, Some("1x".to_string())), Err(bad("1x")));
}

#[test]
fn numbers_are_read_with_their_sign() {
    assert_eq!(build_number(&chars("15")), Ok(Term::Number(15)));
    assert_eq!(build_number(&chars("-15")), Ok(Term::Number(-15)));
    assert_eq!(build_number(&chars("abc")), Err(bad("abc")));
    assert_eq!(build_number(&chars("")), Err(bad("")));
}

#[test]
fn every_symbol_has_its_operator() {
    assert_eq!(operator_for('+'), Some(Operator::Add));
    assert_eq!(operator_for('-'), Some(Operator::Sub));
    assert_eq!(operator_for('*'), Some(Operator::Mul));
    assert_eq!(operator_for('x'), Some(Operator::Mul));
    assert_eq!(operator_for('×'), Some(Operator::Mul));
    assert_eq!(operator_for('/'), Some(Operator::Div));
    assert_eq!(operator_for('\\'), Some(Operator::Div));
    assert_eq!(operator_for('÷'), Some(Operator::Div));
    assert_eq!(operator_for('%'), Some(Operator::Rem));
    assert_eq!(operator_for('^'), Some(Operator::Pow));
    assert_eq!(operator_for('d'), None);
}

#[test]
fn the_first_of_two_characters_is_found() {
    assert_eq!(position(&chars("4d6b3"), 'b', 'w'), 3);
    assert_eq!(position(&chars("4d6w3"), 'b', 'w'), 3);
    assert_eq!(position(&chars("4d6"), 'b', 'w'), 3);
    assert_eq!(position(&chars(""), 'd', 'd'), 0);
}

#[test]
fn a_token_is_read_by_its_shape() {
    assert_eq!(build_term(" 4 D 6 B 3 ", None, None).unwrap().is_dice(), true);
    assert_eq!(build_term("R 3", None, None), Ok(Term::Repeat(3)));
    assert_eq!(build_term("X", None, None), Ok(Term::Operator(Operator::Mul)));
    assert_eq!(build_term("-", None, None), Ok(Term::Operator(Operator::Sub)));
    assert_eq!(build_term("-5", None, None), Ok(Term::Number(-5)));
    assert_eq!(build_term("12", None, None), Ok(Term::Number(12)));
    assert_eq!(
        build_term("VS Dodge 9", Some("Dodge".to_string()), Some("9".to_string())),
        Ok(Term::Versus { target: 9, tag: Some("Dodge".to_string()) })
    );
    assert_eq!(build_term("", None, None), Err(bad("")));
    assert_eq!(build_term("x5", None, None), Err(bad("x5")));
    assert!(has_versus_shape(" Versus x 3"));
    assert!(!has_versus_shape("3d6"));
}

#[test]
fn a_sign_after_an_operator_belongs_to_the_number() {
    let op = |o| Term::Operator(o);
    assert_eq!(
        fold_signs(vec![Term::Number(2), op(Operator::Pow), op(Operator::Sub), Term::Number(1)]),
        vec![Term::Number(2), op(Operator::Pow), Term::Number(-1)]
    );
    assert_eq!(
        fold_signs(vec![Term::Number(2), op(Operator::Sub), Term::Number(1)]),
        vec![Term::Number(2), op(Operator::Sub), Term::Number(1)]
    );
    assert_eq!(
        fold_signs(vec![op(Operator::Sub), Term::Number(1)]),
        vec![op(Operator::Sub), Term::Number(1)]
    );
    assert_eq!(
        fold_signs(vec![
            Term::Number(2),
            op(Operator::Sub),
            op(Operator::Sub),
            Term::Number(1),
            op(Operator::Mul),
            op(Operator::Sub),
            dice(1, 6),
        ]),
        vec![
            Term::Number(2),
            op(Operator::Sub),
            Term::Number(-1),
            op(Operator::Mul),
            op(Operator::Sub),
            dice(1, 6),
        ]
    );
    assert_eq!(
        fold_signs(vec![op(Operator::Mul), op(Operator::Sub), Term::Number(i64::MIN)]),
        vec![op(Operator::Mul), Term::Number(i64::MIN)]
    );
    assert_eq!(fold_signs(Vec::new()), Vec::new());
}

#[test]
fn the_grammar_prefers_the_more_specific_shape() {
    let t = tokenizer();
    assert_eq!(t.tokens("2x1d20+3"), texts(&["2", "x", "1d20", "+", "3"]));
    assert_eq!(t.tokens("r3 3d6"), texts(&["r3", "3d6"]));
    assert_eq!(t.tokens("repeat 3 d"), texts(&["repeat 3", " d"]));
    assert_eq!(t.tokens("3d6-2d4"), texts(&["3d6", "-", "2d4"]));
    assert_eq!(t.tokens("3D6 B 2"), texts(&["3D6 B 2"]));
    assert_eq!(t.tokens("5/0"), texts(&["5", "/", "0"]));
    assert_eq!(t.tokens("2^-1"), texts(&["2", "^", "-", "1"]));
}

#[test]
fn what_matches_nothing_is_skipped() {
    let t = tokenizer();
    assert_eq!(t.tokens("hello"), Vec::<String>::new());
    assert_eq!(t.tokens(""), Vec::<String>::new());
    assert_eq!(t.tokens("(3d6), [+2]!"), texts(&["3d6", "+", "2"]));
}

#[test]
fn a_versus_clause_is_one_token_with_tag_and_target() {
    let t = tokenizer();
    assert_eq!(t.tokens("3d6 vs Broadsword-14"), texts(&["3d6", "vs Broadsword-14"]));
    assert_eq!(t.tag("vs Broadsword-14"), Some("Broadsword".to_string()));
    assert_eq!(t.target("vs Broadsword-14"), Some("14".to_string()));
    assert_eq!(t.tag("vs 12"), None);
    assert_eq!(t.target("vs 12"), Some("12".to_string()));
    assert_eq!(t.target("versus -5"), Some("-5".to_string()));
    assert_eq!(t.tag("VERSUS Fast Draw 12"), Some("Fast Draw".to_string()));
    assert_eq!(t.target("VERSUS Fast Draw 12"), Some("12".to_string()));
    assert_eq!(t.target("3d6"), None);
    assert_eq!(t.tag("hello"), None);
}

#[test]
fn white_space_of_any_script_is_a_blank() {
    let t = tokenizer();
    assert_eq!(
        t.parse("3d6 vs\u{a0}12"),
        Ok(vec![dice(3, 6), Term::Versus { target: 12, tag: None }])
    );
    assert_eq!(
        t.parse("4\u{2003}d\u{3000}6 b\u{a0}3"),
        Ok(vec![Term::Dice {
            count: 4,
            sides: 6,
            keep: Some(Keep { direction: KeepDirection::Best, amount: 3 })
        }])
    );
    assert_eq!(t.parse("r\u{2009}3"), Ok(vec![Term::Repeat(3)]));
    assert_eq!(
        t.parse("vs \u{2003}Dodge\u{a0} - 9"),
        Ok(vec![Term::Versus { target: 9, tag: Some("Dodge".to_string()) }])
    );
}

#[test]
fn a_dash_may_join_keyword_and_target() {
    let t = tokenizer();
    assert_eq!(
        t.parse("3d6 vs-12"),
        Ok(vec![dice(3, 6), Term::Versus { target: 12, tag: None }])
    );
    assert_eq!(t.parse("versus--4"), Ok(vec![Term::Versus { target: -4, tag: None }]));
}

#[test]
fn tag_and_target_part_at_the_first_number() {
    let t = tokenizer();
    assert_eq!(
        t.parse("vs Fast Draw (Knife) - 13"),
        Ok(vec![Term::Versus { target: 13, tag: Some("Fast Draw (Knife)".to_string()) }])
    );
    assert_eq!(
        t.parse("vs Will -3"),
        Ok(vec![Term::Versus { target: -3, tag: Some("Will".to_string()) }])
    );
    assert_eq!(
        t.parse("v 10"),
        Ok(vec![Term::Versus { target: 10, tag: None }])
    );
    assert_eq!(t.parse("vs12"), Ok(vec![Term::Number(12)]));
}

#[test]
fn an_expression_is_parsed_into_its_terms() {
    let t = tokenizer();
    assert_eq!(
        t.parse("2x1d20+3"),
        Ok(vec![
            Term::Number(2),
            Term::Operator(Operator::Mul),
            dice(1, 20),
            Term::Operator(Operator::Add),
            Term::Number(3),
        ])
    );
    assert_eq!(
        t.parse("3d6 vs 12"),
        Ok(vec![dice(3, 6), Term::Versus { target: 12, tag: None }])
    );
    assert_eq!(
        t.parse("2^-1"),
        Ok(vec![Term::Number(2), Term::Operator(Operator::Pow), Term::Number(-1)])
    );
    assert_eq!(t.parse("d"), Ok(vec![dice(3, 6)]));
}

#[test]
fn an_expression_without_terms_is_empty() {
    let t = tokenizer();
    assert_eq!(t.parse(""), Err(ParseRollError::EmptyExpression));
    assert_eq!(t.parse("hello"), Err(ParseRollError::EmptyExpression));
    assert_eq!(t.parse("   "), Err(ParseRollError::EmptyExpression));
}

#[test]
fn a_number_out_of_range_is_an_integer_format_failure() {
    let t = tokenizer();
    assert_eq!(t.parse("99999999999999999999"), Err(bad("99999999999999999999")));
    assert_eq!(t.parse("3d6 + 1d0"), Err(bad("0")));
    assert_eq!(t.parse("r0 3d6"), Err(bad("0")));
    assert_eq!(t.parse("vs 99999999999999999999"), Err(bad("99999999999999999999")));
}

#[test]
fn the_first_failing_token_decides() {
    let t = tokenizer();
    assert_eq!(t.parse("1d0 + 99999999999999999999"), Err(bad("0")));
    assert_eq!(t.build(&texts(&["3d6", "zz", "1d0"])), Err(bad("zz")));
    assert_eq!(t.build(&Vec::new()), Ok(Vec::new()));
}

#[test]
fn parsing_twice_gives_the_same_terms_and_convention() {
    let t = tokenizer();
    for text in ["3d6 vs 12", "1d20+4 vs Dodge-15", "r3 2d6+1", "2d20b1 vs 10", "1d100 vs 65"] {
        let first = t.parse(text).unwrap();
        let second = t.parse(text).unwrap();
        assert_eq!(first, second);
        assert_eq!(infer_system(&first), infer_system(&second));
    }
    assert_eq!(infer_system(&t.parse("3d6 vs 12").unwrap()), GameSystem::Gurps);
    assert_eq!(infer_system(&t.parse("1d20+4 vs 15").unwrap()), GameSystem::D20);
    assert_eq!(infer_system(&t.parse("2d20b1 vs 10").unwrap()), GameSystem::D20);
    assert_eq!(infer_system(&t.parse("1d100 vs 65").unwrap()), GameSystem::D100);
    assert_eq!(infer_system(&t.parse("2d6 vs 7").unwrap()), GameSystem::Plain);
}

#[test]
fn errors_describe_themselves() {
    assert_eq!(
        ParseRollError::EmptyExpression.to_string(),
        "cannot parse term from empty string"
    );
    assert_eq!(bad("1x").to_string(), "cannot parse integer from `1x`");
    assert_eq!(ParseRollError::DivisionByZero.to_string(), "division by zero");
    assert_eq!(ParseRollError::InvalidExponent.to_string(), "negative exponent");
}

#[test]
fn an_error_is_shown_in_its_debug_form() {
    assert_eq!(error::stringify(&ParseRollError::EmptyExpression), "Error: EmptyExpression");
    assert_eq!(error::stringify(&ParseRollError::DivisionByZero), "Error: DivisionByZero");
    assert_eq!(error::stringify(&ParseRollError::InvalidExponent), "Error: InvalidExponent");
    assert_eq!(error::stringify(&bad("1x")), "Error: IntegerFormat(\"1x\")");
    assert_eq!(error::stringify(&bad("")), "Error: IntegerFormat(\"\")");
    for e in [
        ParseRollError::EmptyExpression,
        ParseRollError::DivisionByZero,
        ParseRollError::InvalidExponent,
        bad("99999999999999999999"),
        bad("a\"b\\c\n\u{a0}×"),
    ] {
        assert_eq!(error::stringify(&e), format!("Error: {:?}", e));
    }
    assert_eq!(
        error::stringify_with(&bad("7"), "<seven>"),
        "Error: IntegerFormat(<seven>)"
    );
    assert_eq!(error::stringify_with(&ParseRollError::DivisionByZero, "x"), "Error: DivisionByZero");
}

#[test]
fn a_term_in_notation_reads_back_as_itself() {
    let terms = vec![
        dice(3, 6),
        dice(0, 1),
        dice(usize::MAX, i64::MAX),
        Term::Dice {
            count: 4,
            sides: 6,
            keep: Some(Keep { direction: KeepDirection::Best, amount: 3 }),
        },
        Term::Dice {
            count: 2,
            sides: 20,
            keep: Some(Keep { direction: KeepDirection::Worst, amount: 0 }),
        },
        Term::Number(0),
        Term::Number(7),
        Term::Number(-7),
        Term::Number(i64::MAX),
        Term::Number(i64::MIN),
        Term::Operator(Operator::Add),
        Term::Operator(Operator::Sub),
        Term::Operator(Operator::Mul),
        Term::Operator(Operator::Div),
        Term::Operator(Operator::Rem),
        Term::Operator(Operator::Pow),
    ];
    for term in terms {
        assert_eq!(build_term(&term.to_string(), None, None), Ok(term));
    }
}
