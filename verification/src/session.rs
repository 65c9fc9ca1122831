//! One line at a time: an assignment, an expression, or the word that ends
//! the session.

use vstd::prelude::*;
use crate::env::Environment;
use crate::eval::{arithmetic_of, evaluate_rpn, evaluates_to, outcome_view};
use crate::lexer::{all_read_as, is_word, reading_of, scan, tokenize, Lexeme};
use crate::reorder::{postfix_of, shunting_yard};
use crate::text::{chars_of, trim, trimmed};
use crate::token::{symbols, CalcError, Fault, Operator, Symbol, Token};

verus! {

/// What a line asks the caller to do.
#[derive(Clone, Copy, Debug, PartialEq)]
pub enum Reply<V> {
    /// The line was the word `exit`: read no further.
    Exit,
    /// The line was evaluated: report this value.
    Value(V),
}

/// The word that ends a session.
pub open spec fn exit_word() -> Seq<char> {
    seq!['e', 'x', 'i', 't']
}

/// Whether `outcome` is an outcome of evaluating the infix sequence
/// `infix`: malformed where it has no postfix form, and else an outcome of
/// evaluating that form.
pub open spec fn expression_outcome<V>(
    arithmetic: spec_fn(Operator, V, V, V) -> bool,
    variables: Map<Seq<char>, V>,
    infix: Seq<Symbol<V>>,
    outcome: Result<V, Fault>,
) -> bool {
    match postfix_of(infix) {
        Some(postfix) => evaluates_to(arithmetic, variables, postfix, outcome),
        None => outcome == Err::<V, Fault>(Fault::MalformedExpression),
    }
}

/// The name that a statement assigns to: the statement starts with a
/// variable and an assignment sign, and holds no other assignment sign.
pub open spec fn assignment_target<V>(statement: Seq<Symbol<V>>) -> Option<Seq<char>> {
    if statement.len() >= 2 && statement[1] == Symbol::<V>::Assign && !statement.skip(2).contains(
        Symbol::Assign,
    ) {
        match statement[0] {
            Symbol::Variable(name) => Some(name),
            _ => None,
        }
    } else {
        None
    }
}

/// Whether a statement may end with `outcome` and leave the variables as
/// `after`. Without an assignment sign the statement is an expression and
/// changes nothing. With one it must name its target; the rest is then the
/// expression, whose value the target receives. A failure changes nothing.
pub open spec fn statement_outcome<V>(
    arithmetic: spec_fn(Operator, V, V, V) -> bool,
    before: Map<Seq<char>, V>,
    statement: Seq<Symbol<V>>,
    outcome: Result<V, Fault>,
    after: Map<Seq<char>, V>,
) -> bool {
    if !statement.contains(Symbol::Assign) {
        expression_outcome(arithmetic, before, statement, outcome) && after == before
    } else {
        match assignment_target(statement) {
            Some(name) => expression_outcome(arithmetic, before, statement.skip(2), outcome)
                && after == match outcome {
                Ok(value) => before.insert(name, value),
                Err(_) => before,
            },
            None => outcome == Err::<V, Fault>(Fault::MalformedExpression) && after == before,
        }
    }
}

/// Whether `statement` is a reading of the lexemes of a line, and may end
/// with `outcome` and leave the variables as `after`.
pub open spec fn reads_and_runs<V>(
    reading: spec_fn(Seq<char>, Option<V>) -> bool,
    arithmetic: spec_fn(Operator, V, V, V) -> bool,
    before: Map<Seq<char>, V>,
    lexemes: Seq<Lexeme>,
    statement: Seq<Symbol<V>>,
    outcome: Result<Reply<V>, Fault>,
    after: Map<Seq<char>, V>,
) -> bool {
    all_read_as(reading, lexemes, statement) && match outcome {
        Ok(Reply::Value(value)) => statement_outcome(
            arithmetic,
            before,
            statement,
            Ok(value),
            after,
        ),
        Ok(Reply::Exit) => false,
        Err(fault) => statement_outcome(arithmetic, before, statement, Err(fault), after),
    }
}

/// Whether a line of text may end with `outcome` and leave the variables as
/// `after`. The exit word asks to stop. A line with a stray character is
/// rejected. Any other line is a statement, made of tokens that its lexemes
/// read as.
pub open spec fn line_outcome<V>(
    reading: spec_fn(Seq<char>, Option<V>) -> bool,
    arithmetic: spec_fn(Operator, V, V, V) -> bool,
    before: Map<Seq<char>, V>,
    text: Seq<char>,
    outcome: Result<Reply<V>, Fault>,
    after: Map<Seq<char>, V>,
) -> bool {
    if text == exit_word() {
        outcome == Ok::<Reply<V>, Fault>(Reply::Exit) && after == before
    } else {
        match scan(text) {
            Ok(lexemes) => exists|statement: Seq<Symbol<V>>|
                reads_and_runs(reading, arithmetic, before, lexemes, statement, outcome, after),
            Err(c) => outcome == Err::<Reply<V>, Fault>(Fault::InvalidCharacter(c)) && after
                == before,
        }
    }
}

/// The model of a reply or error.
pub open spec fn reply_view<V>(outcome: Result<Reply<V>, CalcError>) -> Result<Reply<V>, Fault> {
    match outcome {
        Ok(reply) => Ok(reply),
        Err(error) => Err(error@),
    }
}

/// Whether the text is the word that ends a session.
pub fn is_exit_word(text: &str) -> (exit: bool)
    ensures
        exit == (text@ == exit_word()),
{
    let chars = chars_of(text);
    let exit = chars.len() == 4 && chars[0] == 'e' && chars[1] == 'x' && chars[2] == 'i'
        && chars[3] == 't';
    proof {
        if exit {
            assert(text@ =~= exit_word());
        }
    }
    exit
}

/// Whether an assignment sign stands at or after position `from`.
fn holds_assign<V>(tokens: &Vec<Token<V>>, from: usize) -> (found: bool)
    requires
        from <= tokens.len(),
    ensures
        found == symbols(tokens@).skip(from as int).contains(Symbol::Assign),
{
    let mut i = from;
    while i < tokens.len()
        invariant
            from <= i <= tokens.len(),
            forall|k: int| from <= k < i ==> symbols(tokens@)[k] != Symbol::<V>::Assign,
        decreases tokens.len() - i,
    {
        match &tokens[i] {
            Token::Assign => {
                proof {
                    assert(symbols(tokens@).skip(from as int)[i - from] == Symbol::<V>::Assign);
                }
                return true;
            },
            _ => {},
        }
        i = i + 1;
    }
    false
}

/// Reorders an infix token sequence and evaluates the result.
pub fn evaluate_infix<V: Copy, A: Fn(Operator, V, V) -> V>(
    tokens: Vec<Token<V>>,
    variables: &Environment<V>,
    apply: A,
) -> (r: Result<V, CalcError>)
    requires
        !symbols(tokens@).contains(Symbol::Assign),
        forall|op: Operator, left: V, right: V| apply.requires((op, left, right)),
    ensures
        expression_outcome(arithmetic_of(apply), variables@, symbols(tokens@), outcome_view(r)),
{
    match shunting_yard(tokens) {
        Ok(postfix) => evaluate_rpn(postfix, variables, apply),
        Err(error) => Err(error),
    }
}

/// A calculator session: the variables assigned so far.
#[verifier::reject_recursive_types(V)]
pub struct Session<V> {
    variables: Environment<V>,
}

impl<V: Copy> Session<V> {
    /// A session in which no variable has a value.
    pub fn new() -> (session: Self)
        ensures
            session.variables()@ == Map::<Seq<char>, V>::empty(),
    {
        Session { variables: Environment::new() }
    }

    /// The variables of the session.
    pub closed spec fn spec_variables(&self) -> &Environment<V> {
        &self.variables
    }

    /// The variables of the session.
    #[verifier::when_used_as_spec(spec_variables)]
    pub fn variables(&self) -> (variables: &Environment<V>)
        ensures
            variables == self.spec_variables(),
    {
        &self.variables
    }

    /// Runs one statement, given as tokens.
    ///
    /// A statement that holds an assignment sign must have the form of a
    /// variable, the sign, and an expression without a further sign; the
    /// variable then receives the value of the expression. Any other
    /// statement is an expression. Nothing is assigned where the statement
    /// fails.
    pub fn run<A: Fn(Operator, V, V) -> V>(&mut self, statement: Vec<Token<V>>, apply: A) -> (r:
        Result<V, CalcError>)
        requires
            forall|op: Operator, left: V, right: V| apply.requires((op, left, right)),
        ensures
            statement_outcome(
                arithmetic_of(apply),
                old(self).variables()@,
                symbols(statement@),
                outcome_view(r),
                final(self).variables()@,
            ),
    {
        let ghost whole = symbols(statement@);
        proof {
            assert(whole.skip(0) =~= whole);
        }
        if !holds_assign(&statement, 0) {
            return evaluate_infix(statement, &self.variables, apply);
        }
        if statement.len() < 2 || holds_assign(&statement, 2) {
            return Err(CalcError::MalformedExpression);
        }
        let mut expression = statement;
        let target = expression.remove(0);
        let sign = expression.remove(0);
        proof {
            assert(symbols(expression@) =~= whole.skip(2));
        }
        match (target, sign) {
            (Token::Variable(name), Token::Assign) => {
                let value = evaluate_infix(expression, &self.variables, apply)?;
                self.variables.assign(name, value);
                Ok(value)
            },
            _ => Err(CalcError::MalformedExpression),
        }
    }

    /// Runs one line of text that has no whitespace around it.
    ///
    /// The word `exit` asks the caller to stop and is not evaluated. Any
    /// other line is split into tokens and run as a statement.
    pub fn execute<P: Fn(&str) -> Option<V>, A: Fn(Operator, V, V) -> V>(
        &mut self,
        text: &str,
        parse_number: P,
        apply: A,
    ) -> (r: Result<Reply<V>, CalcError>)
        requires
            forall|s: &str| is_word(s@) ==> parse_number.requires((s,)),
            forall|op: Operator, left: V, right: V| apply.requires((op, left, right)),
        ensures
            line_outcome(
                reading_of(parse_number),
                arithmetic_of(apply),
                old(self).variables()@,
                text@,
                reply_view(r),
                final(self).variables()@,
            ),
    {
        if is_exit_word(text) {
            return Ok(Reply::Exit);
        }
        let statement = tokenize(text, parse_number)?;
        let ghost read = symbols(statement@);
        let reply = match self.run(statement, apply) {
            Ok(value) => Ok(Reply::Value(value)),
            Err(error) => Err(error),
        };
        proof {
            assert(reads_and_runs(
                reading_of(parse_number),
                arithmetic_of(apply),
                old(self).variables()@,
                scan(text@)->Ok_0,
                read,
                reply_view(reply),
                self.variables()@,
            ));
        }
        reply
    }

    /// Runs one line as it was read: whitespace around it, the line ending
    /// included, is removed first.
    pub fn handle_line<P: Fn(&str) -> Option<V>, A: Fn(Operator, V, V) -> V>(
        &mut self,
        line: &str,
        parse_number: P,
        apply: A,
    ) -> (r: Result<Reply<V>, CalcError>)
        requires
            forall|s: &str| is_word(s@) ==> parse_number.requires((s,)),
            forall|op: Operator, left: V, right: V| apply.requires((op, left, right)),
        ensures
            line_outcome(
                reading_of(parse_number),
                arithmetic_of(apply),
                old(self).variables()@,
                trimmed(line@),
                reply_view(r),
                final(self).variables()@,
            ),
    {
        self.execute(trim(line), parse_number, apply)
    }
}

} // verus!
