use arith_expr::error::Error;
use arith_expr::expr::{Expr, ExprNumber, ExprOp};
use arith_expr::parser::{parse, parse_add, parse_expr, parse_factor, parse_mul, ParseState};
use arith_expr::token::Token;
use arith_expr::tokenizer::Tokenizer;

fn state_on(text: &str) -> ParseState {
    ParseState::new(Box::new(Tokenizer::new(String::from(text))))
}

fn primed(text: &str) -> ParseState {
    let mut state = state_on(text);
    state.get_token().unwrap();
    state
}

fn num(digits: &[u8]) -> Box<Expr> {
    Box::new(Expr::Number(ExprNumber { number: digits.to_vec() }))
}

fn op(left: Box<Expr>, tag: Token, right: Box<Expr>) -> Box<Expr> {
    ExprOp::new_boxed(left, right, tag)
}

fn leaf_value(digits: &[u8]) -> f64 {
    let mut value = 0.0;
    for d in digits {
        value = value * 10.0 + f64::from(*d);
    }
    value
}

fn value_of(expr: &Expr) -> f64 {
    match expr {
        Expr::Number(leaf) => leaf_value(&leaf.number),
        Expr::Op(node) => {
            let left = value_of(&node.left);
            let right = value_of(&node.right);
            match node.op {
                Token::Plus => left + right,
                Token::Minus => left - right,
                Token::Multiply => left * right,
                Token::Divide => left / right,
                _ => panic!("not an operator"),
            }
        }
    }
}

fn evaluate(text: &str) -> f64 {
    let tree = parse(String::from(text)).unwrap();
    assert_eq!(tree.check(), Ok(()));
    value_of(&tree)
}

#[test]
fn digits_evaluate_to_their_base_ten_value() {
    assert_eq!(parse(String::from("1234")), Ok(num(&[1, 2, 3, 4])));
    assert_eq!(evaluate("1234"), 1234.0);
    assert_eq!(evaluate("0"), 0.0);
    assert_eq!(evaluate("007"), 7.0);
    assert_eq!(evaluate("9007199254740992"), 9007199254740992.0);
}

#[test]
fn subtraction_groups_to_the_left() {
    let tree = parse(String::from("10-3-2")).unwrap();
    let expected = op(op(num(&[1, 0]), Token::Minus, num(&[3])), Token::Minus, num(&[2]));
    assert_eq!(tree, expected);
    assert_eq!(evaluate("10-3-2"), 5.0);
    assert_ne!(evaluate("10-3-2"), 9.0);
}

#[test]
fn division_groups_to_the_left() {
    let tree = parse(String::from("8/4/2")).unwrap();
    let expected = op(op(num(&[8]), Token::Divide, num(&[4])), Token::Divide, num(&[2]));
    assert_eq!(tree, expected);
    assert_eq!(evaluate("8/4/2"), 1.0);
}

#[test]
fn multiplication_binds_tighter_than_addition() {
    let tree = parse(String::from("2+3*4")).unwrap();
    let expected = op(num(&[2]), Token::Plus, op(num(&[3]), Token::Multiply, num(&[4])));
    assert_eq!(tree, expected);
    assert_eq!(evaluate("2+3*4"), 14.0);

    let tree = parse(String::from("2*3+4")).unwrap();
    let expected = op(op(num(&[2]), Token::Multiply, num(&[3])), Token::Plus, num(&[4]));
    assert_eq!(tree, expected);
    assert_eq!(evaluate("2*3+4"), 10.0);
}

#[test]
fn mixed_tiers() {
    assert_eq!(evaluate("1+2*3-4/2"), 5.0);
    assert_eq!(evaluate("2*3*4+5*6"), 54.0);
    assert_eq!(evaluate("100/10/5-1-1"), 0.0);
    assert_eq!(evaluate("5+4"), 9.0);
}

#[test]
fn whitespace_does_not_change_the_result() {
    assert_eq!(parse(String::from("1 + 2")), parse(String::from("1+2")));
    assert_eq!(evaluate("1 + 2"), 3.0);
    assert_eq!(evaluate("1+2"), 3.0);
    assert_eq!(evaluate("  1\t+\n2  "), 3.0);
}

#[test]
fn division_follows_floating_point() {
    assert_eq!(evaluate("1/2"), 0.5);
    assert_eq!(evaluate("1/0"), f64::INFINITY);
    assert!(evaluate("0/0").is_nan());
    assert_eq!(evaluate("0-1/0"), f64::NEG_INFINITY);
}

#[test]
fn unknown_character_fails_the_parse() {
    assert_eq!(parse(String::from("#")), Err(Error::UnknownCharacter));
    assert_eq!(parse(String::from("1+#")), Err(Error::UnknownCharacter));
    assert_eq!(parse(String::from("1#")), Err(Error::UnknownCharacter));
    assert_eq!(parse(String::from("2*(3)")), Err(Error::UnknownCharacter));
}

#[test]
fn malformed_number_fails_the_parse() {
    assert_eq!(parse(String::from("12a")), Err(Error::InvalidDigit));
    assert_eq!(parse(String::from("1+2b")), Err(Error::InvalidDigit));
}

#[test]
fn truncated_expression_fails_the_parse() {
    assert_eq!(parse(String::from("5+")), Err(Error::UnexpectedToken));
    assert_eq!(parse(String::from("5*")), Err(Error::UnexpectedToken));
    assert_eq!(parse(String::from("5+4-")), Err(Error::UnexpectedToken));
}

#[test]
fn truncated_expression_reaches_primary_with_end_of_input() {
    let mut state = primed("5+");
    assert!(parse_factor(&mut state).is_ok());
    assert_eq!(state.get_token(), Ok(Token::EOF));
    assert_eq!(parse_factor(&mut state), Err(Error::UnexpectedToken));
}

#[test]
fn empty_input_fails_the_parse() {
    assert_eq!(parse(String::new()), Err(Error::UnexpectedToken));
    assert_eq!(parse(String::from("   ")), Err(Error::UnexpectedToken));
}

#[test]
fn operator_where_an_operand_must_stand_fails_the_parse() {
    assert_eq!(parse(String::from("-5")), Err(Error::UnexpectedToken));
    assert_eq!(parse(String::from("1++2")), Err(Error::UnexpectedToken));
    assert_eq!(parse(String::from("1*/2")), Err(Error::UnexpectedToken));
}

#[test]
fn identifier_is_no_operand() {
    assert_eq!(parse(String::from("x")), Err(Error::UnexpectedToken));
    assert_eq!(parse(String::from("1+x")), Err(Error::UnexpectedToken));
}

#[test]
fn parse_stops_in_front_of_what_cannot_continue() {
    assert_eq!(parse(String::from("5 5 #")), Ok(num(&[5])));
    assert_eq!(parse(String::from("1+2 x #")), parse(String::from("1+2")));
    let mut state = primed("1+2 7*3");
    assert_eq!(parse_expr(&mut state), parse(String::from("1+2")));
    assert_eq!(parse_expr(&mut state), parse(String::from("7*3")));
    assert_eq!(parse_expr(&mut state), Err(Error::UnexpectedToken));
}

#[test]
fn first_failure_in_reading_order_wins() {
    assert_eq!(parse(String::from("1+ # 2a")), Err(Error::UnknownCharacter));
    assert_eq!(parse(String::from("1+ 2a #")), Err(Error::InvalidDigit));
    assert_eq!(parse(String::from("+ #")), Err(Error::UnexpectedToken));
}

#[test]
fn fresh_state_has_the_placeholder_as_lookahead() {
    let mut state = state_on("5");
    assert_eq!(parse_expr(&mut state), Err(Error::UnexpectedToken));
    assert_eq!(state.get_token(), Ok(Token::Number(vec![5])));
    assert_eq!(state.get_token(), Ok(Token::EOF));
}

#[test]
fn get_token_returns_the_new_lookahead() {
    let mut state = state_on("7+");
    assert_eq!(state.get_token(), Ok(Token::Number(vec![7])));
    assert_eq!(parse_factor(&mut state), Ok(num(&[7])));
    assert_eq!(parse_factor(&mut state), Err(Error::UnexpectedToken));
    assert_eq!(state.get_token(), Ok(Token::EOF));
    assert_eq!(state.get_token(), Ok(Token::EOF));
}

#[test]
fn get_token_failure_keeps_the_lookahead() {
    let mut state = primed("7 # 8");
    assert_eq!(state.get_token(), Err(Error::UnknownCharacter));
    assert_eq!(parse_factor(&mut state), Ok(num(&[7])));
}

#[test]
fn parse_factor_takes_one_number() {
    let mut state = primed("12*3");
    assert_eq!(parse_factor(&mut state), Ok(num(&[1, 2])));
    assert_eq!(parse_factor(&mut state), Err(Error::UnexpectedToken));
}

#[test]
fn parse_mul_stops_at_an_additive_operator() {
    let mut state = primed("2*3/4+5");
    let expected = op(op(num(&[2]), Token::Multiply, num(&[3])), Token::Divide, num(&[4]));
    assert_eq!(parse_mul(&mut state), Ok(expected));
    assert_eq!(parse_mul(&mut state), Err(Error::UnexpectedToken));
    assert_eq!(state.get_token(), Ok(Token::Number(vec![5])));
}

#[test]
fn parse_add_takes_the_whole_expression() {
    let mut state = primed("1-2*3+4");
    let expected = op(
        op(num(&[1]), Token::Minus, op(num(&[2]), Token::Multiply, num(&[3]))),
        Token::Plus,
        num(&[4]),
    );
    assert_eq!(parse_add(&mut state), Ok(expected));
    assert_eq!(state.get_token(), Ok(Token::EOF));
}

#[test]
fn new_node_holds_what_it_was_given() {
    let node = ExprOp::new(num(&[1]), num(&[2]), Token::Divide);
    assert_eq!(node.left, num(&[1]));
    assert_eq!(node.right, num(&[2]));
    assert_eq!(node.op, Token::Divide);
    let boxed = ExprOp::new_boxed(num(&[1]), num(&[2]), Token::Divide);
    assert_eq!(*boxed, Expr::Op(node));
}

#[test]
fn check_accepts_what_the_parser_builds() {
    for text in ["1", "1+2", "1*2-3/4", "10-3-2", "0/0"] {
        assert_eq!(parse(String::from(text)).unwrap().check(), Ok(()));
    }
}

#[test]
fn check_refuses_a_tag_that_is_no_operator() {
    for tag in [
        Token::Unknown,
        Token::EOF,
        Token::Number(vec![1]),
        Token::Identifier(String::from("x")),
    ] {
        let tree = op(num(&[1]), tag, num(&[2]));
        assert_eq!(tree.check(), Err(Error::InternalInvariant));
    }
    let deep = op(num(&[1]), Token::Plus, op(num(&[2]), Token::EOF, num(&[3])));
    assert_eq!(deep.check(), Err(Error::InternalInvariant));
    let deep = op(op(num(&[2]), Token::EOF, num(&[3])), Token::Plus, num(&[1]));
    assert_eq!(deep.check(), Err(Error::InternalInvariant));
}

#[test]
fn check_refuses_a_leaf_that_holds_no_digit_string() {
    assert_eq!(num(&[]).check(), Err(Error::InternalInvariant));
    assert_eq!(num(&[10]).check(), Err(Error::InternalInvariant));
    assert_eq!(num(&[1, 200, 3]).check(), Err(Error::InternalInvariant));
    assert_eq!(op(num(&[1]), Token::Plus, num(&[])).check(), Err(Error::InternalInvariant));
    assert_eq!(num(&[0]).check(), Ok(()));
    assert_eq!(num(&[9, 9]).check(), Ok(()));
}
