use eris::message::{reply_to, roll_all, split_comment, split_expressions, RollReply};
use eris::scan::Tokenizer;
use eris::source::DiceSource;

fn tokenizer() -> Tokenizer {
    Tokenizer::new().expect("the grammar compiles")
}

fn chars(s: &str) -> Vec<char> {
    s.chars().collect()
}

#[test]
fn a_comment_follows_the_first_hash() {
    assert_eq!(
        split_comment("3d6 vs 12 # to hit # really "),
        ("3d6 vs 12 ".to_string(), Some("to hit # really".to_string()))
    );
    assert_eq!(split_comment("3d6"), ("3d6".to_string(), None));
    assert_eq!(split_comment("#"), ("".to_string(), Some("".to_string())));
    assert_eq!(split_comment(""), ("".to_string(), None));
}

#[test]
fn expressions_are_cut_at_semicolons_and_line_feeds() {
    assert_eq!(
        split_expressions(&chars("3d6;1d20\n2d4")),
        vec![chars("3d6"), chars("1d20"), chars("2d4")]
    );
    assert_eq!(split_expressions(&chars("")), vec![chars("")]);
    assert_eq!(split_expressions(&chars(";")), vec![chars(""), chars("")]);
    assert_eq!(split_expressions(&chars("a;;b;")), vec![chars("a"), chars(""), chars("b"), chars("")]);
}

#[test]
fn each_expression_gives_its_lines() {
    let t = tokenizer();
    let mut source = DiceSource::seeded(6);
    assert_eq!(
        roll_all(&t, &mut source, "2d1+1;4d1b2"),
        "2d1[1, 1] + 1 (Total: 3)\n4d1b2[1, 1, 1, 1] (Total: 2)"
    );
}

#[test]
fn expressions_that_fail_leave_no_line() {
    let t = tokenizer();
    let mut source = DiceSource::seeded(6);
    assert_eq!(roll_all(&t, &mut source, "hello;1d1;5/0;2d1"), "1d1[1] (Total: 1)\n2d1[1, 1] (Total: 2)");
    assert_eq!(roll_all(&t, &mut source, "hello"), "");
}

#[test]
fn an_empty_piece_rolls_three_dice() {
    let t = tokenizer();
    let mut source = DiceSource::seeded(6);
    let text = roll_all(&t, &mut source, "");
    assert!(text.starts_with("3d6["));
    let two = roll_all(&t, &mut source, ";");
    assert_eq!(two.split('\n').count(), 2);
}

#[test]
fn a_command_is_answered_with_rolls_and_comment() {
    let t = tokenizer();
    let mut source = DiceSource::seeded(6);
    assert_eq!(
        reply_to(&t, &mut source, "3d1 vs 5; 1d1 # sneaking d6 "),
        RollReply {
            rolls: "3d1[1, 1, 1] (Total:  3 vs 5: Failure by 2)\n1d1[1] (Total: 1)"
                .to_string(),
            comment: Some("sneaking d6".to_string()),
        }
    );
}
