use infix_calc::{shunting_yard, tokenize, CalcError, Operator, Token};

fn number(word: &str) -> Option<f64> {
    word.parse().ok()
}

fn tokens(line: &str) -> Vec<Token<f64>> {
    match tokenize(line, number) {
        Ok(tokens) => tokens,
        Err(error) => panic!("{:?}", error),
    }
}

fn reordered(line: &str) -> Result<Vec<Token<f64>>, CalcError> {
    shunting_yard(tokens(line))
}

#[test]
fn reorder_multiplication_binds_tighter() {
    assert_eq!(reordered("3 + 4 * 2"), Ok(tokens("3 4 2 * +")));
    assert_eq!(reordered("3 * 4 + 2"), Ok(tokens("3 4 * 2 +")));
}

#[test]
fn reorder_parentheses_group() {
    assert_eq!(reordered("(3 + 4) * 2"), Ok(tokens("3 4 + 2 *")));
    assert_eq!(reordered("2 * (3 + 4)"), Ok(tokens("2 3 4 + *")));
}

#[test]
fn reorder_division_then_subtraction() {
    assert_eq!(reordered("10 / 2 - 3"), Ok(tokens("10 2 / 3 -")));
}

#[test]
fn reorder_equal_precedence_associates_left() {
    assert_eq!(reordered("8 - 3 - 2"), Ok(tokens("8 3 - 2 -")));
    assert_eq!(reordered("8 / 4 * 2"), Ok(tokens("8 4 / 2 *")));
    assert_eq!(reordered("1 + 2 - 3 + 4"), Ok(tokens("1 2 + 3 - 4 +")));
}

#[test]
fn reorder_exact_tokens() {
    assert_eq!(
        reordered("a + b * c"),
        Ok(vec![
            Token::Variable("a".to_string()),
            Token::Variable("b".to_string()),
            Token::Variable("c".to_string()),
            Token::Operator(Operator::Times),
            Token::Operator(Operator::Plus),
        ])
    );
}

#[test]
fn reorder_single_operand() {
    assert_eq!(reordered("7"), Ok(vec![Token::Number(7.0)]));
    assert_eq!(reordered("((7))"), Ok(vec![Token::Number(7.0)]));
}

#[test]
fn reorder_nested_parentheses() {
    assert_eq!(
        reordered("((1 + 2) * (3 - 4)) / 5"),
        Ok(tokens("1 2 + 3 4 - * 5 /"))
    );
    assert_eq!(reordered("1 - (2 - (3 - 4))"), Ok(tokens("1 2 3 4 - - -")));
}

#[test]
fn reorder_mixed_precedence_chain() {
    assert_eq!(
        reordered("1 + 2 * 3 - 4 / 5"),
        Ok(tokens("1 2 3 * + 4 5 / -"))
    );
}

#[test]
fn reorder_empty_input() {
    assert_eq!(shunting_yard(Vec::<Token<f64>>::new()), Ok(vec![]));
}

#[test]
fn reorder_unmatched_open_parenthesis() {
    assert_eq!(reordered("(1 + 2"), Err(CalcError::MalformedExpression));
    assert_eq!(reordered("("), Err(CalcError::MalformedExpression));
    assert_eq!(reordered("((1 + 2)"), Err(CalcError::MalformedExpression));
    assert_eq!(reordered("1 + (2 * 3"), Err(CalcError::MalformedExpression));
}

#[test]
fn reorder_unmatched_close_parenthesis() {
    assert_eq!(reordered("1 + 2)"), Err(CalcError::MalformedExpression));
    assert_eq!(reordered(")"), Err(CalcError::MalformedExpression));
    assert_eq!(reordered("(1 + 2))"), Err(CalcError::MalformedExpression));
    assert_eq!(reordered(")("), Err(CalcError::MalformedExpression));
}

#[test]
fn reorder_empty_parentheses() {
    assert_eq!(reordered("()"), Ok(vec![]));
}

#[test]
fn reorder_does_not_validate_operands() {
    assert_eq!(reordered("1 2 +"), Ok(tokens("1 2 +")));
    assert_eq!(reordered("+"), Ok(tokens("+")));
    assert_eq!(reordered("1 +"), Ok(tokens("1 +")));
    assert_eq!(reordered("* 2 + 3"), Ok(tokens("2 * 3 +")));
}

#[test]
fn reorder_output_has_no_parentheses() {
    match reordered("((a + b) * (c - d)) / (e)") {
        Ok(postfix) => {
            assert_eq!(postfix.len(), 9);
            for token in postfix.iter() {
                assert!(!matches!(token, Token::LeftParen | Token::RightParen));
            }
        }
        Err(error) => panic!("{:?}", error),
    }
}

#[test]
fn reorder_keeps_operands_in_order() {
    match reordered("a * (b + c) - d / e") {
        Ok(postfix) => {
            let operands: Vec<String> = postfix
                .iter()
                .filter_map(|token| match token {
                    Token::Variable(name) => Some(name.clone()),
                    _ => None,
                })
                .collect();
            assert_eq!(operands, vec!["a", "b", "c", "d", "e"]);
        }
        Err(error) => panic!("{:?}", error),
    }
}
