use arith_expr::error::Error;
use arith_expr::token::Token;
use arith_expr::tokenizer::{get_all_tokens, get_token, remove_whitespace, Tokenizer};

fn scanner(text: &str) -> Tokenizer {
    Tokenizer::new(String::from(text))
}

fn tokens(text: &str) -> Result<Vec<Token>, Error> {
    get_all_tokens(&mut scanner(text))
}

#[test]
fn new_scanner_starts_at_zero() {
    let t = scanner("abc");
    assert_eq!(t.position(), 0);
    assert_eq!(t.peek_char(), 'a');
}

#[test]
fn peek_twice_gives_the_same_character() {
    let t = scanner("xy");
    let first = t.peek_char();
    let second = t.peek_char();
    assert_eq!(first, 'x');
    assert_eq!(second, 'x');
    assert_eq!(t.position(), 0);
}

#[test]
fn peek_at_the_end_is_null() {
    let t = scanner("");
    assert_eq!(t.peek_char(), '\0');
    assert_eq!(t.peek_char(), '\0');
    assert_eq!(t.position(), 0);
}

#[test]
fn next_char_reads_and_advances() {
    let mut t = scanner("ab");
    assert_eq!(t.next_char(), 'a');
    assert_eq!(t.position(), 1);
    assert_eq!(t.next_char(), 'b');
    assert_eq!(t.position(), 2);
}

#[test]
fn next_char_past_the_end_is_null_and_still_advances() {
    let mut t = scanner("a");
    assert_eq!(t.next_char(), 'a');
    assert_eq!(t.next_char(), '\0');
    assert_eq!(t.position(), 2);
    assert_eq!(t.next_char(), '\0');
    assert_eq!(t.position(), 3);
    assert_eq!(t.peek_char(), '\0');
}

#[test]
fn skip_moves_by_one() {
    let mut t = scanner("abc");
    t.skip();
    assert_eq!(t.position(), 1);
    assert_eq!(t.peek_char(), 'b');
    t.skip();
    t.skip();
    t.skip();
    assert_eq!(t.position(), 4);
}

#[test]
fn positions_count_characters_not_bytes() {
    let mut t = scanner("é+");
    assert_eq!(t.next_char(), 'é');
    assert_eq!(t.position(), 1);
    assert_eq!(t.peek_char(), '+');
}

#[test]
fn remove_whitespace_stops_at_the_first_other_character() {
    let mut t = scanner(" \t\n\r\u{b}\u{c}x  ");
    remove_whitespace(&mut t);
    assert_eq!(t.position(), 6);
    assert_eq!(t.peek_char(), 'x');
    remove_whitespace(&mut t);
    assert_eq!(t.position(), 6);
}

#[test]
fn remove_whitespace_stops_at_the_end() {
    let mut t = scanner("   ");
    remove_whitespace(&mut t);
    assert_eq!(t.position(), 3);
    remove_whitespace(&mut t);
    assert_eq!(t.position(), 3);
}

#[test]
fn remove_whitespace_knows_unicode_spaces() {
    let mut t = scanner("\u{a0}\u{2003}\u{3000}7");
    remove_whitespace(&mut t);
    assert_eq!(t.position(), 3);
    assert_eq!(t.peek_char(), '7');
}

#[test]
fn operators_are_single_characters() {
    assert_eq!(
        tokens("+-*/"),
        Ok(vec![Token::Plus, Token::Minus, Token::Multiply, Token::Divide])
    );
}

#[test]
fn letters_make_one_identifier() {
    let mut t = scanner("HH");
    assert_eq!(get_token(&mut t), Ok(Token::Identifier(String::from("HH"))));
    assert_eq!(t.position(), 2);
    assert_eq!(get_token(&mut t), Ok(Token::EOF));
    assert_eq!(tokens("HH"), Ok(vec![Token::Identifier(String::from("HH"))]));
}

#[test]
fn identifier_takes_digits_after_the_first_letter() {
    assert_eq!(tokens("a1b2"), Ok(vec![Token::Identifier(String::from("a1b2"))]));
}

#[test]
fn identifier_ends_at_an_underscore() {
    let mut t = scanner("ab_c");
    assert_eq!(get_token(&mut t), Ok(Token::Identifier(String::from("ab"))));
    assert_eq!(get_token(&mut t), Err(Error::UnknownCharacter));
}

#[test]
fn identifier_may_hold_letters_outside_ascii() {
    assert_eq!(tokens("été"), Ok(vec![Token::Identifier(String::from("été"))]));
    assert_eq!(tokens("x٣"), Ok(vec![Token::Identifier(String::from("x٣"))]));
}

#[test]
fn digits_make_one_number() {
    let mut t = scanner("1234");
    assert_eq!(get_token(&mut t), Ok(Token::Number(vec![1, 2, 3, 4])));
    assert_eq!(t.position(), 4);
    assert_eq!(get_token(&mut t), Ok(Token::EOF));
}

#[test]
fn number_keeps_leading_zeros_and_any_length() {
    assert_eq!(tokens("007"), Ok(vec![Token::Number(vec![0, 0, 7])]));
    let long = "98765432109876543210987654321098765432109876543210";
    let digits: Vec<u8> = long.bytes().map(|b| b - b'0').collect();
    assert_eq!(tokens(long), Ok(vec![Token::Number(digits)]));
}

#[test]
fn number_with_a_letter_is_refused() {
    let mut t = scanner("12a+1");
    assert_eq!(get_token(&mut t), Err(Error::InvalidDigit));
    assert_eq!(t.position(), 3);
    assert_eq!(tokens("12a"), Err(Error::InvalidDigit));
    assert_eq!(tokens("1x2"), Err(Error::InvalidDigit));
}

#[test]
fn numeric_character_outside_ascii_is_refused() {
    let mut t = scanner("٣");
    assert_eq!(get_token(&mut t), Err(Error::InvalidDigit));
    assert_eq!(t.position(), 1);
    assert_eq!(tokens("1٣"), Err(Error::InvalidDigit));
    assert_eq!(tokens("½"), Err(Error::InvalidDigit));
}

#[test]
fn unknown_character_is_refused() {
    let mut t = scanner("#");
    assert_eq!(get_token(&mut t), Err(Error::UnknownCharacter));
    assert_eq!(t.position(), 1);
    assert_eq!(tokens("1 + # 2"), Err(Error::UnknownCharacter));
    assert_eq!(tokens("(1)"), Err(Error::UnknownCharacter));
    assert_eq!(tokens("1.5"), Err(Error::UnknownCharacter));
}

#[test]
fn whitespace_does_not_change_the_tokens() {
    let spaced = tokens("1 + 2");
    let tight = tokens("1+2");
    assert_eq!(spaced, tight);
    assert_eq!(
        tight,
        Ok(vec![Token::Number(vec![1]), Token::Plus, Token::Number(vec![2])])
    );
    assert_eq!(tokens(" \t1\n+\r 2  "), tight);
}

#[test]
fn whitespace_outside_ascii_does_not_change_the_tokens() {
    assert_eq!(tokens("1\u{a0}+\u{2003}2\u{3000}"), tokens("1+2"));
    assert_eq!(tokens("\u{2028}ab\u{85}*\u{1680}7"), tokens("ab*7"));
}

#[test]
fn whitespace_in_front_of_a_failure_does_not_change_it() {
    assert_eq!(tokens("1 #"), tokens("1#"));
    assert_eq!(tokens("  12a"), tokens("12a"));
    assert_eq!(tokens("1 # "), Err(Error::UnknownCharacter));
}

#[test]
fn whitespace_separates_numbers() {
    assert_eq!(tokens("1 2"), Ok(vec![Token::Number(vec![1]), Token::Number(vec![2])]));
    assert_eq!(tokens("12"), Ok(vec![Token::Number(vec![1, 2])]));
}

#[test]
fn end_of_input_is_permanent() {
    let mut t = scanner("7 ");
    assert_eq!(get_token(&mut t), Ok(Token::Number(vec![7])));
    assert_eq!(get_token(&mut t), Ok(Token::EOF));
    let at_end = t.position();
    assert_eq!(at_end, 2);
    assert_eq!(get_token(&mut t), Ok(Token::EOF));
    assert_eq!(get_token(&mut t), Ok(Token::EOF));
    assert_eq!(t.position(), at_end);
}

#[test]
fn end_of_input_past_the_end_leaves_the_cursor() {
    let mut t = scanner("a");
    t.skip();
    t.skip();
    t.skip();
    assert_eq!(get_token(&mut t), Ok(Token::EOF));
    assert_eq!(t.position(), 3);
}

#[test]
fn null_character_reads_as_end_of_input() {
    let mut t = scanner("1\0+");
    assert_eq!(get_token(&mut t), Ok(Token::Number(vec![1])));
    assert_eq!(get_token(&mut t), Ok(Token::EOF));
    assert_eq!(t.position(), 2);
    assert_eq!(get_token(&mut t), Ok(Token::Plus));
    assert_eq!(get_token(&mut t), Ok(Token::EOF));
    assert_eq!(t.position(), 3);
}

#[test]
fn get_all_tokens_stops_at_the_first_end() {
    let mut t = scanner("1 2\0 3");
    assert_eq!(
        get_all_tokens(&mut t),
        Ok(vec![Token::Number(vec![1]), Token::Number(vec![2])])
    );
    assert_eq!(t.position(), 4);
    assert_eq!(get_all_tokens(&mut t), Ok(vec![Token::Number(vec![3])]));
    assert_eq!(get_all_tokens(&mut t), Ok(vec![]));
}

#[test]
fn get_all_tokens_of_nothing_is_empty() {
    assert_eq!(tokens(""), Ok(vec![]));
    assert_eq!(tokens("   "), Ok(vec![]));
}

#[test]
fn scanner_never_yields_the_placeholder() {
    for text in ["", " ", "a", "1", "+", "a 1 + -", "\0"] {
        let mut t = scanner(text);
        loop {
            match get_token(&mut t) {
                Ok(Token::EOF) => break,
                Ok(token) => assert_ne!(token, Token::Unknown),
                Err(_) => break,
            }
        }
    }
}

#[test]
fn every_ascii_character_is_classed_as_stated() {
    for code in 0u8..128 {
        let c = code as char;
        let mut t = Tokenizer::new(c.to_string());
        let got = get_token(&mut t);
        let expected = if c == ' ' || ('\t'..='\r').contains(&c) || c == '\0' {
            Ok(Token::EOF)
        } else if c == '+' {
            Ok(Token::Plus)
        } else if c == '-' {
            Ok(Token::Minus)
        } else if c == '*' {
            Ok(Token::Multiply)
        } else if c == '/' {
            Ok(Token::Divide)
        } else if c.is_ascii_lowercase() || c.is_ascii_uppercase() {
            Ok(Token::Identifier(c.to_string()))
        } else if c.is_ascii_digit() {
            Ok(Token::Number(vec![code - b'0']))
        } else {
            Err(Error::UnknownCharacter)
        };
        assert_eq!(got, expected, "character {:?}", c);
        assert_eq!(t.position(), 1, "character {:?}", c);
    }
}

#[test]
fn every_ascii_character_continues_an_identifier_as_stated() {
    for code in 0u8..128 {
        let c = code as char;
        let mut t = Tokenizer::new(format!("a{}", c));
        let got = get_token(&mut t);
        if c.is_ascii_lowercase() || c.is_ascii_uppercase() || c.is_ascii_digit() {
            assert_eq!(got, Ok(Token::Identifier(format!("a{}", c))), "character {:?}", c);
            assert_eq!(t.position(), 2);
        } else {
            assert_eq!(got, Ok(Token::Identifier(String::from("a"))), "character {:?}", c);
            assert_eq!(t.position(), 1);
        }
    }
}

#[test]
fn token_clone_is_equal() {
    for token in [
        Token::Unknown,
        Token::Plus,
        Token::Minus,
        Token::Multiply,
        Token::Divide,
        Token::Identifier(String::from("abc")),
        Token::Number(vec![4, 2]),
        Token::EOF,
    ] {
        assert_eq!(token.clone(), token);
    }
}

#[test]
fn operator_classes() {
    assert!(Token::Plus.is_additive() && Token::Minus.is_additive());
    assert!(!Token::Multiply.is_additive() && !Token::Divide.is_additive());
    assert!(Token::Multiply.is_multiplicative() && Token::Divide.is_multiplicative());
    assert!(!Token::Plus.is_multiplicative() && !Token::Minus.is_multiplicative());
    for token in [Token::Plus, Token::Minus, Token::Multiply, Token::Divide] {
        assert!(token.is_operator());
    }
    for token in [
        Token::Unknown,
        Token::EOF,
        Token::Number(vec![1]),
        Token::Identifier(String::from("x")),
    ] {
        assert!(!token.is_operator());
        assert!(!token.is_additive());
        assert!(!token.is_multiplicative());
    }
}
