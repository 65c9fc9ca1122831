use infix_calc::{tokenize, CalcError, Operator, Token};

fn number(word: &str) -> Option<f64> {
    word.parse().ok()
}

fn nothing(_word: &str) -> Option<f64> {
    None
}

fn name(text: &str) -> Token<f64> {
    Token::Variable(text.to_string())
}

#[test]
fn tokenize_numbers_and_operators() {
    assert_eq!(
        tokenize("3 + 4 * 2", number),
        Ok(vec![
            Token::Number(3.0),
            Token::Operator(Operator::Plus),
            Token::Number(4.0),
            Token::Operator(Operator::Times),
            Token::Number(2.0),
        ])
    );
}

#[test]
fn tokenize_needs_no_spaces() {
    assert_eq!(tokenize("3+4*2", number), tokenize("3 + 4 * 2", number));
    assert_eq!(
        tokenize("10/2-x", number),
        Ok(vec![
            Token::Number(10.0),
            Token::Operator(Operator::Divide),
            Token::Number(2.0),
            Token::Operator(Operator::Minus),
            name("x"),
        ])
    );
}

#[test]
fn tokenize_parentheses() {
    assert_eq!(
        tokenize("(3 + 4) * 2", number),
        Ok(vec![
            Token::LeftParen,
            Token::Number(3.0),
            Token::Operator(Operator::Plus),
            Token::Number(4.0),
            Token::RightParen,
            Token::Operator(Operator::Times),
            Token::Number(2.0),
        ])
    );
}

#[test]
fn tokenize_assignment() {
    assert_eq!(
        tokenize("x = 5", number),
        Ok(vec![name("x"), Token::Assign, Token::Number(5.0)])
    );
    assert_eq!(
        tokenize("total=a+b", number),
        Ok(vec![
            name("total"),
            Token::Assign,
            name("a"),
            Token::Operator(Operator::Plus),
            name("b"),
        ])
    );
}

#[test]
fn tokenize_empty_line() {
    assert_eq!(tokenize("", number), Ok(vec![]));
    assert_eq!(tokenize("     ", number), Ok(vec![]));
}

#[test]
fn tokenize_single_word() {
    assert_eq!(tokenize("42", number), Ok(vec![Token::Number(42.0)]));
    assert_eq!(tokenize("abc", number), Ok(vec![name("abc")]));
    assert_eq!(tokenize("  Rate2  ", number), Ok(vec![name("Rate2")]));
}

#[test]
fn tokenize_rejects_unknown_character() {
    assert_eq!(
        tokenize("3 $ 4", number),
        Err(CalcError::InvalidCharacter('$'))
    );
    assert_eq!(
        tokenize("a_b", number),
        Err(CalcError::InvalidCharacter('_'))
    );
    assert_eq!(
        tokenize("2 ^ 3", number),
        Err(CalcError::InvalidCharacter('^'))
    );
}

#[test]
fn tokenize_reports_first_unknown_character() {
    assert_eq!(
        tokenize("1 # 2 $ 3", number),
        Err(CalcError::InvalidCharacter('#'))
    );
    assert_eq!(tokenize("!?", number), Err(CalcError::InvalidCharacter('!')));
}

#[test]
fn tokenize_rejects_other_whitespace() {
    assert_eq!(
        tokenize("1\t+ 2", number),
        Err(CalcError::InvalidCharacter('\t'))
    );
    assert_eq!(
        tokenize("1 + 2\n", number),
        Err(CalcError::InvalidCharacter('\n'))
    );
}

#[test]
fn tokenize_rejects_non_ascii() {
    assert_eq!(
        tokenize("caf\u{e9} + 1", number),
        Err(CalcError::InvalidCharacter('\u{e9}'))
    );
    assert_eq!(
        tokenize("2 \u{d7} 3", number),
        Err(CalcError::InvalidCharacter('\u{d7}'))
    );
}

#[test]
fn tokenize_word_ends_at_open_parenthesis() {
    assert_eq!(
        tokenize("2(3", number),
        Ok(vec![Token::Number(2.0), Token::LeftParen, Token::Number(3.0)])
    );
    assert_eq!(
        tokenize("f(x)", number),
        Ok(vec![name("f"), Token::LeftParen, name("x"), Token::RightParen])
    );
}

#[test]
fn tokenize_number_before_assign_is_a_number() {
    assert_eq!(
        tokenize("5 = 3", number),
        Ok(vec![Token::Number(5.0), Token::Assign, Token::Number(3.0)])
    );
    assert_eq!(
        tokenize("5=3", number),
        Ok(vec![Token::Number(5.0), Token::Assign, Token::Number(3.0)])
    );
}

#[test]
fn tokenize_word_that_is_no_number_is_a_name() {
    assert_eq!(tokenize("1a", number), Ok(vec![name("1a")]));
    assert_eq!(tokenize("1.2.3", number), Ok(vec![name("1.2.3")]));
    assert_eq!(tokenize(".", number), Ok(vec![name(".")]));
    assert_eq!(tokenize("1e", number), Ok(vec![name("1e")]));
    assert_eq!(tokenize("x1", number), Ok(vec![name("x1")]));
}

#[test]
fn tokenize_decimal_forms() {
    assert_eq!(tokenize(".5", number), Ok(vec![Token::Number(0.5)]));
    assert_eq!(tokenize("5.", number), Ok(vec![Token::Number(5.0)]));
    assert_eq!(tokenize("3.25", number), Ok(vec![Token::Number(3.25)]));
    assert_eq!(tokenize("007", number), Ok(vec![Token::Number(7.0)]));
    assert_eq!(tokenize("1e3", number), Ok(vec![Token::Number(1000.0)]));
}

#[test]
fn tokenize_exponent_sign_splits_the_word() {
    assert_eq!(
        tokenize("1e-3", number),
        Ok(vec![
            name("1e"),
            Token::Operator(Operator::Minus),
            Token::Number(3.0),
        ])
    );
}

#[test]
fn tokenize_words_that_name_special_values() {
    assert_eq!(
        tokenize("inf", number),
        Ok(vec![Token::Number(f64::INFINITY)])
    );
    match tokenize("nan", number) {
        Ok(tokens) => {
            assert_eq!(tokens.len(), 1);
            match &tokens[0] {
                Token::Number(value) => assert!(value.is_nan()),
                other => panic!("unexpected token {:?}", other),
            }
        }
        Err(error) => panic!("unexpected error {:?}", error),
    }
}

#[test]
fn tokenize_minus_is_always_an_operator() {
    assert_eq!(
        tokenize("-3", number),
        Ok(vec![Token::Operator(Operator::Minus), Token::Number(3.0)])
    );
}

#[test]
fn tokenize_asks_the_reader_about_every_word() {
    assert_eq!(
        tokenize("3 + x", nothing),
        Ok(vec![name("3"), Token::Operator(Operator::Plus), name("x")])
    );
    let hex = |word: &str| i64::from_str_radix(word, 16).ok();
    assert_eq!(
        tokenize("ff + g", hex),
        Ok(vec![
            Token::Number(255),
            Token::Operator(Operator::Plus),
            Token::Variable("g".to_string()),
        ])
    );
}

#[test]
fn tokenize_keeps_every_character_of_a_name() {
    let line = "abcdefghijklmnopqrstuvwxyzABCDEFGHIJKLMNOPQRSTUVWXYZ0123456789.";
    assert_eq!(tokenize(line, number), Ok(vec![name(line)]));
}

#[test]
fn tokenize_adjacent_delimiters() {
    assert_eq!(
        tokenize("()=+-*/", number),
        Ok(vec![
            Token::<f64>::LeftParen,
            Token::RightParen,
            Token::Assign,
            Token::Operator(Operator::Plus),
            Token::Operator(Operator::Minus),
            Token::Operator(Operator::Times),
            Token::Operator(Operator::Divide),
        ])
    );
}

#[test]
fn operator_characters() {
    assert_eq!(Operator::from_char('+'), Some(Operator::Plus));
    assert_eq!(Operator::from_char('-'), Some(Operator::Minus));
    assert_eq!(Operator::from_char('*'), Some(Operator::Times));
    assert_eq!(Operator::from_char('/'), Some(Operator::Divide));
    assert_eq!(Operator::from_char('('), None);
    assert_eq!(Operator::from_char('x'), None);
    assert_eq!(Operator::Plus.as_char(), '+');
    assert_eq!(Operator::Minus.as_char(), '-');
    assert_eq!(Operator::Times.as_char(), '*');
    assert_eq!(Operator::Divide.as_char(), '/');
}

#[test]
fn operator_precedence() {
    assert_eq!(Operator::Plus.precedence(), 1);
    assert_eq!(Operator::Minus.precedence(), 1);
    assert_eq!(Operator::Times.precedence(), 2);
    assert_eq!(Operator::Divide.precedence(), 2);
}
