use infix_calc::{is_exit_word, tokenize, CalcError, Operator, Reply, Session, Token};

fn number(word: &str) -> Option<f64> {
    word.parse().ok()
}

fn arithmetic(op: Operator, left: f64, right: f64) -> f64 {
    match op {
        Operator::Plus => left + right,
        Operator::Minus => left - right,
        Operator::Times => left * right,
        Operator::Divide => left / right,
    }
}

fn execute(session: &mut Session<f64>, text: &str) -> Result<Reply<f64>, CalcError> {
    session.execute(text, number, arithmetic)
}

fn tokens(line: &str) -> Vec<Token<f64>> {
    match tokenize(line, number) {
        Ok(tokens) => tokens,
        Err(error) => panic!("{:?}", error),
    }
}

#[test]
fn session_evaluates_expressions() {
    let mut session = Session::new();
    assert_eq!(execute(&mut session, "3 + 4 * 2"), Ok(Reply::Value(11.0)));
    assert_eq!(execute(&mut session, "(3 + 4) * 2"), Ok(Reply::Value(14.0)));
    assert_eq!(execute(&mut session, "10 / 2 - 3"), Ok(Reply::Value(2.0)));
}

#[test]
fn session_assignment_round_trip() {
    let mut session = Session::new();
    assert_eq!(execute(&mut session, "x = 5"), Ok(Reply::Value(5.0)));
    assert_eq!(execute(&mut session, "x + 1"), Ok(Reply::Value(6.0)));
    assert_eq!(session.variables().lookup("x"), Some(5.0));
}

#[test]
fn session_assignment_reports_the_value() {
    let mut session = Session::new();
    assert_eq!(execute(&mut session, "y = 2 * (3 + 4)"), Ok(Reply::Value(14.0)));
    assert_eq!(session.variables().lookup("y"), Some(14.0));
}

#[test]
fn session_assignment_may_read_its_target() {
    let mut session = Session::new();
    assert_eq!(execute(&mut session, "n = 1"), Ok(Reply::Value(1.0)));
    assert_eq!(execute(&mut session, "n = n + 1"), Ok(Reply::Value(2.0)));
    assert_eq!(execute(&mut session, "n = n * n + n"), Ok(Reply::Value(6.0)));
    assert_eq!(session.variables().lookup("n"), Some(6.0));
}

#[test]
fn session_undefined_variable_changes_nothing() {
    let mut session = Session::new();
    assert_eq!(
        execute(&mut session, "y + 1"),
        Err(CalcError::UndefinedVariable("y".to_string()))
    );
    assert!(!session.variables().contains("y"));
    assert_eq!(execute(&mut session, "x = 5"), Ok(Reply::Value(5.0)));
    assert_eq!(
        execute(&mut session, "x + y"),
        Err(CalcError::UndefinedVariable("y".to_string()))
    );
    assert_eq!(session.variables().lookup("x"), Some(5.0));
    assert!(!session.variables().contains("y"));
}

#[test]
fn session_failed_assignment_assigns_nothing() {
    let mut session = Session::new();
    assert_eq!(
        execute(&mut session, "x = y"),
        Err(CalcError::UndefinedVariable("y".to_string()))
    );
    assert!(!session.variables().contains("x"));
    assert_eq!(execute(&mut session, "x = 1"), Ok(Reply::Value(1.0)));
    assert_eq!(
        execute(&mut session, "x = (2"),
        Err(CalcError::MalformedExpression)
    );
    assert_eq!(
        execute(&mut session, "x = 2 +"),
        Err(CalcError::MalformedExpression)
    );
    assert_eq!(session.variables().lookup("x"), Some(1.0));
}

#[test]
fn session_unmatched_parenthesis_is_an_error() {
    let mut session = Session::new();
    assert_eq!(
        execute(&mut session, "(1 + 2"),
        Err(CalcError::MalformedExpression)
    );
    assert_eq!(
        execute(&mut session, "1 + 2)"),
        Err(CalcError::MalformedExpression)
    );
}

#[test]
fn session_goes_on_after_an_error() {
    let mut session = Session::new();
    assert_eq!(
        execute(&mut session, "1 $ 2"),
        Err(CalcError::InvalidCharacter('$'))
    );
    assert_eq!(
        execute(&mut session, "(1"),
        Err(CalcError::MalformedExpression)
    );
    assert_eq!(execute(&mut session, "1 + 2"), Ok(Reply::Value(3.0)));
}

#[test]
fn session_division_by_zero_is_a_value() {
    let mut session = Session::new();
    assert_eq!(
        execute(&mut session, "4 / 0"),
        Ok(Reply::Value(f64::INFINITY))
    );
    assert_eq!(
        execute(&mut session, "z = 4 / 0"),
        Ok(Reply::Value(f64::INFINITY))
    );
    assert_eq!(execute(&mut session, "1 / z"), Ok(Reply::Value(0.0)));
}

#[test]
fn session_same_line_twice_gives_the_same() {
    let mut session = Session::new();
    assert_eq!(execute(&mut session, "a = 3"), Ok(Reply::Value(3.0)));
    let first = execute(&mut session, "a * a - 1 / a");
    let second = execute(&mut session, "a * a - 1 / a");
    assert_eq!(first, second);
    assert_eq!(first, Ok(Reply::Value(3.0 * 3.0 - 1.0 / 3.0)));
    assert_eq!(session.variables().lookup("a"), Some(3.0));
}

#[test]
fn session_exit_word() {
    let mut session = Session::new();
    assert_eq!(execute(&mut session, "exit"), Ok(Reply::Exit));
}

#[test]
fn session_exit_is_not_a_variable() {
    let mut session = Session::new();
    assert_eq!(
        execute(&mut session, "exit = 1"),
        Ok(Reply::Value(1.0))
    );
    assert_eq!(execute(&mut session, "exit"), Ok(Reply::Exit));
    assert_eq!(execute(&mut session, "exit + 1"), Ok(Reply::Value(2.0)));
}

#[test]
fn session_only_the_exact_word_exits() {
    let mut session = Session::new();
    assert_eq!(
        execute(&mut session, "exit "),
        Err(CalcError::UndefinedVariable("exit".to_string()))
    );
    assert_eq!(
        execute(&mut session, "Exit"),
        Err(CalcError::UndefinedVariable("Exit".to_string()))
    );
    assert_eq!(
        execute(&mut session, "exits"),
        Err(CalcError::UndefinedVariable("exits".to_string()))
    );
    assert_eq!(
        execute(&mut session, "exi"),
        Err(CalcError::UndefinedVariable("exi".to_string()))
    );
}

#[test]
fn session_assignment_without_target() {
    let mut session = Session::new();
    assert_eq!(
        execute(&mut session, "= 5"),
        Err(CalcError::MalformedExpression)
    );
    assert_eq!(
        execute(&mut session, "="),
        Err(CalcError::MalformedExpression)
    );
    assert_eq!(
        execute(&mut session, "5 = 3"),
        Err(CalcError::MalformedExpression)
    );
    assert_eq!(
        execute(&mut session, "(x) = 3"),
        Err(CalcError::MalformedExpression)
    );
}

#[test]
fn session_assignment_sign_out_of_place() {
    let mut session = Session::new();
    assert_eq!(
        execute(&mut session, "x + 1 = 2"),
        Err(CalcError::MalformedExpression)
    );
    assert_eq!(
        execute(&mut session, "x 1 = 2"),
        Err(CalcError::MalformedExpression)
    );
    assert_eq!(
        execute(&mut session, "x"),
        Err(CalcError::UndefinedVariable("x".to_string()))
    );
    assert!(!session.variables().contains("x"));
}

#[test]
fn session_second_assignment_sign() {
    let mut session = Session::new();
    assert_eq!(
        execute(&mut session, "x = y = 5"),
        Err(CalcError::MalformedExpression)
    );
    assert_eq!(
        execute(&mut session, "x = = 5"),
        Err(CalcError::MalformedExpression)
    );
    assert_eq!(
        execute(&mut session, "x = 5 ="),
        Err(CalcError::MalformedExpression)
    );
    assert!(!session.variables().contains("x"));
    assert!(!session.variables().contains("y"));
}

#[test]
fn session_assignment_without_expression() {
    let mut session = Session::new();
    assert_eq!(
        execute(&mut session, "x ="),
        Err(CalcError::MalformedExpression)
    );
    assert!(!session.variables().contains("x"));
}

#[test]
fn session_empty_line_is_malformed() {
    let mut session = Session::new();
    assert_eq!(execute(&mut session, ""), Err(CalcError::MalformedExpression));
    assert_eq!(
        execute(&mut session, "   "),
        Err(CalcError::MalformedExpression)
    );
}

#[test]
fn session_name_that_starts_with_a_digit() {
    let mut session = Session::new();
    assert_eq!(execute(&mut session, "1a = 2"), Ok(Reply::Value(2.0)));
    assert_eq!(execute(&mut session, "1a + 1"), Ok(Reply::Value(3.0)));
    assert_eq!(session.variables().lookup("1a"), Some(2.0));
}

#[test]
fn session_invalid_character_changes_nothing() {
    let mut session = Session::new();
    assert_eq!(
        execute(&mut session, "x = 5 # 2"),
        Err(CalcError::InvalidCharacter('#'))
    );
    assert!(!session.variables().contains("x"));
}

#[test]
fn session_raw_line_is_trimmed() {
    let mut session = Session::new();
    assert_eq!(
        session.handle_line("  1 + 2 \n", number, arithmetic),
        Ok(Reply::Value(3.0))
    );
    assert_eq!(
        session.handle_line("x = 4\r\n", number, arithmetic),
        Ok(Reply::Value(4.0))
    );
    assert_eq!(
        session.handle_line("\tx * 2\n", number, arithmetic),
        Ok(Reply::Value(8.0))
    );
    assert_eq!(
        session.handle_line(" exit \n", number, arithmetic),
        Ok(Reply::Exit)
    );
}

#[test]
fn session_untrimmed_text_is_not_accepted() {
    let mut session = Session::new();
    assert_eq!(
        execute(&mut session, "1 + 2\n"),
        Err(CalcError::InvalidCharacter('\n'))
    );
    assert_eq!(
        session.handle_line("1 +\t2\n", number, arithmetic),
        Err(CalcError::InvalidCharacter('\t'))
    );
}

#[test]
fn session_runs_statements_given_as_tokens() {
    let mut session = Session::new();
    assert_eq!(session.run(tokens("x = 2 * 3"), arithmetic), Ok(6.0));
    assert_eq!(session.run(tokens("x - 1"), arithmetic), Ok(5.0));
    assert_eq!(
        session.run(tokens("= 1"), arithmetic),
        Err(CalcError::MalformedExpression)
    );
    assert_eq!(
        session.run(vec![Token::Assign, Token::Assign], arithmetic),
        Err(CalcError::MalformedExpression)
    );
    assert_eq!(
        session.run(vec![Token::Assign], arithmetic),
        Err(CalcError::MalformedExpression)
    );
    assert_eq!(session.variables().lookup("x"), Some(6.0));
}

#[test]
fn session_starts_without_variables() {
    let session: Session<f64> = Session::new();
    assert!(!session.variables().contains("x"));
    assert_eq!(session.variables().lookup(""), None);
}

#[test]
fn session_sessions_are_independent() {
    let mut first = Session::new();
    let mut second = Session::new();
    assert_eq!(execute(&mut first, "x = 1"), Ok(Reply::Value(1.0)));
    assert_eq!(
        execute(&mut second, "x"),
        Err(CalcError::UndefinedVariable("x".to_string()))
    );
}

#[test]
fn exit_word_is_recognised_exactly() {
    assert!(is_exit_word("exit"));
    assert!(!is_exit_word(""));
    assert!(!is_exit_word("exi"));
    assert!(!is_exit_word("exit "));
    assert!(!is_exit_word(" exit"));
    assert!(!is_exit_word("EXIT"));
    assert!(!is_exit_word("exit\n"));
    assert!(!is_exit_word("quit"));
    assert!(!is_exit_word("\u{e9}xit"));
}
